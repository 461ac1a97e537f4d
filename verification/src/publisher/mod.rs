//! The publishing socket: who subscribed to what, and who gets a message.

pub mod calls;
pub mod laws;
pub mod subscription;

use crate::codec::Message;
use crate::error::{CodecError, ErrorKind, ZmqError};
use crate::message::{contents, ZmqMessage};
use crate::publisher::subscription::{any_prefix, remove_first, subscribed, without_first};
use vstd::prelude::*;

verus! {

/// Who a peer is.
#[derive(Debug, Eq, Hash)]
pub struct PeerIdentity {
    bytes: Vec<u8>,
}

impl View for PeerIdentity {
    type V = Seq<u8>;

    closed spec fn view(&self) -> Seq<u8> {
        self.bytes@
    }
}

impl Clone for PeerIdentity {
    fn clone(&self) -> (r: Self)
        ensures
            r@ == self@,
    {
        let bytes = self.bytes.clone();
        assert(bytes@ =~= self.bytes@);
        PeerIdentity { bytes }
    }
}

impl PartialEq for PeerIdentity {
    fn eq(&self, other: &Self) -> (r: bool) {
        let r = self.bytes == other.bytes;
        assert(r <==> self.bytes@ =~= other.bytes@);
        r
    }
}

impl vstd::std_specs::cmp::PartialEqSpecImpl for PeerIdentity {
    open spec fn obeys_eq_spec() -> bool {
        true
    }

    open spec fn eq_spec(&self, other: &Self) -> bool {
        self@ == other@
    }
}

impl PeerIdentity {
    /// The peer with this identity.
    pub fn new(bytes: Vec<u8>) -> (r: Self)
        ensures
            r@ == bytes@,
    {
        PeerIdentity { bytes }
    }

    /// The bytes of the identity.
    pub fn as_bytes(&self) -> (r: &Vec<u8>)
        ensures
            r@ == self@,
    {
        &self.bytes
    }
}

/// A change in who is connected. `Q` writes to the peer, `T` stops the task that reads from it.
#[derive(Debug)]
pub enum ConnectionCommand<Q, T> {
    New(PeerIdentity, Q, T),
    Closed(PeerIdentity),
}

/// A change in what a peer is subscribed to.
#[derive(Debug)]
pub enum SubscriptionCommand {
    Subscribe(PeerIdentity, Vec<u8>),
    Unsubscribe(PeerIdentity, Vec<u8>),
}

/// What a monitor of the socket is told.
#[derive(Debug)]
pub enum SocketEvent {
    Disconnected(PeerIdentity),
}

/// Why a channel of commands gave none.
#[derive(Debug, Clone, Copy, PartialEq, Eq, Structural)]
pub enum TryRecvError {
    /// None is there now.
    Empty,
    /// None is there, and none will come.
    Disconnected,
}

/// A connected peer.
#[derive(Debug)]
pub struct Subscriber<Q, T> {
    pub peer_id: PeerIdentity,
    pub subscriptions: Vec<Vec<u8>>,
    pub send_queue: Q,
    pub subscription_coro_stop: T,
}

/// What is known of a connected peer, besides the identity by which it is found.
#[verifier::ext_equal]
pub struct SubscriberView<Q, T> {
    /// The topics, in the order of subscribing; one subscribed to twice stands there twice.
    pub subscriptions: Seq<Seq<u8>>,
    pub send_queue: Q,
    pub subscription_coro_stop: T,
}

impl<Q, T> View for Subscriber<Q, T> {
    type V = SubscriberView<Q, T>;

    open spec fn view(&self) -> SubscriberView<Q, T> {
        SubscriberView {
            subscriptions: contents(self.subscriptions@),
            send_queue: self.send_queue,
            subscription_coro_stop: self.subscription_coro_stop,
        }
    }
}

/// A publishing socket: the connected peers, each once.
#[derive(Debug)]
pub struct PubSocket<Q, T> {
    pub subscribers: Vec<Subscriber<Q, T>>,
}

/// Peers by identity.
pub type Peers<Q, T> = Map<Seq<u8>, SubscriberView<Q, T>>;

/// The peer `id` is one of `s`.
pub open spec fn is_peer<Q, T>(s: Seq<Subscriber<Q, T>>, id: Seq<u8>) -> bool {
    exists|i: int| 0 <= i < s.len() && (#[trigger] s[i]).peer_id@ == id
}

/// Where the peer `id` stands in `s`.
pub open spec fn place<Q, T>(s: Seq<Subscriber<Q, T>>, id: Seq<u8>) -> int {
    choose|i: int| 0 <= i < s.len() && (#[trigger] s[i]).peer_id@ == id
}

impl<Q, T> View for PubSocket<Q, T> {
    type V = Peers<Q, T>;

    open spec fn view(&self) -> Peers<Q, T> {
        Map::new(
            |id: Seq<u8>| is_peer(self.subscribers@, id),
            |id: Seq<u8>| self.subscribers@[place(self.subscribers@, id)]@,
        )
    }
}

/// No peer stands in `s` twice.
pub open spec fn distinct<Q, T>(s: Seq<Subscriber<Q, T>>) -> bool {
    forall|i: int, j: int|
        0 <= i < j < s.len() ==> (#[trigger] s[i]).peer_id@ != (#[trigger] s[j]).peer_id@
}

/// The peers after a change in who is connected. A peer that connects anew starts without
/// subscriptions.
pub open spec fn connection_applied<Q, T>(
    peers: Peers<Q, T>,
    command: ConnectionCommand<Q, T>,
) -> Peers<Q, T> {
    match command {
        ConnectionCommand::New(peer, send_queue, stop) => peers.insert(
            peer@,
            SubscriberView {
                subscriptions: Seq::empty(),
                send_queue,
                subscription_coro_stop: stop,
            },
        ),
        ConnectionCommand::Closed(peer) => peers.remove(peer@),
    }
}

/// The peers after several such changes.
pub open spec fn connections_applied<Q, T>(
    peers: Peers<Q, T>,
    commands: Seq<ConnectionCommand<Q, T>>,
) -> Peers<Q, T>
    decreases commands.len(),
{
    if commands.len() == 0 {
        peers
    } else {
        connection_applied(connections_applied(peers, commands.drop_last()), commands.last())
    }
}

/// The peers that the commands close, in order.
pub open spec fn closed_peers<Q, T>(commands: Seq<ConnectionCommand<Q, T>>) -> Seq<Seq<u8>>
    decreases commands.len(),
{
    if commands.len() == 0 {
        Seq::empty()
    } else {
        let rest = closed_peers(commands.drop_last());
        match commands.last() {
            ConnectionCommand::New(_, _, _) => rest,
            ConnectionCommand::Closed(peer) => rest.push(peer@),
        }
    }
}

/// The peers after a change in what one of them is subscribed to. A change for a peer that is not
/// connected comes to nothing.
pub open spec fn subscription_applied<Q, T>(
    peers: Peers<Q, T>,
    command: SubscriptionCommand,
) -> Peers<Q, T> {
    let (id, topics) = match command {
        SubscriptionCommand::Subscribe(peer, topic) => (
            peer@,
            peers[peer@].subscriptions.push(topic@),
        ),
        SubscriptionCommand::Unsubscribe(peer, topic) => (
            peer@,
            without_first(peers[peer@].subscriptions, topic@),
        ),
    };
    if peers.contains_key(id) {
        peers.insert(id, SubscriberView { subscriptions: topics, ..peers[id] })
    } else {
        peers
    }
}

/// The peers after several such changes.
pub open spec fn subscriptions_applied<Q, T>(
    peers: Peers<Q, T>,
    commands: Seq<SubscriptionCommand>,
) -> Peers<Q, T>
    decreases commands.len(),
{
    if commands.len() == 0 {
        peers
    } else {
        subscription_applied(subscriptions_applied(peers, commands.drop_last()), commands.last())
    }
}

/// The peers of which the events tell.
pub open spec fn disconnected(events: Seq<SocketEvent>) -> Seq<Seq<u8>> {
    Seq::new(events.len(), |i: int| events[i]->Disconnected_0@)
}

/// What draining a channel of commands comes to: an error when no command can come any more.
pub open spec fn drained(end: TryRecvError, r: Result<(), ZmqError>) -> bool {
    match end {
        TryRecvError::Empty => r is Ok,
        TryRecvError::Disconnected => r matches Err(ZmqError::Other(m)) && m@
            == "Command channel closed"@,
    }
}

/// A peer stands in one place only.
pub(crate) proof fn lemma_place<Q, T>(s: Seq<Subscriber<Q, T>>, i: int)
    requires
        distinct(s),
        0 <= i < s.len(),
    ensures
        is_peer(s, s[i].peer_id@),
        place(s, s[i].peer_id@) == i,
{
    let id = s[i].peer_id@;
    assert(is_peer(s, id));
    let j = place(s, id);
    assert(0 <= j < s.len() && s[j].peer_id@ == id);
}

impl<Q, T> PubSocket<Q, T> {
    /// No peer is listed twice.
    pub open spec fn wf(&self) -> bool {
        distinct(self.subscribers@)
    }

    /// A socket without peers.
    pub fn new() -> (r: Self)
        ensures
            r.wf(),
            r@ == Peers::<Q, T>::empty(),
    {
        let r = PubSocket { subscribers: Vec::new() };
        assert(r@ =~= Peers::<Q, T>::empty());
        r
    }

    /// Where the peer is listed, if it is connected.
    fn find(&self, peer_id: &PeerIdentity) -> (r: Option<usize>)
        requires
            self.wf(),
        ensures
            match r {
                Some(n) => {
                    &&& n < self.subscribers@.len()
                    &&& self.subscribers@[n as int].peer_id@ == peer_id@
                    &&& self@.contains_key(peer_id@)
                    &&& self@[peer_id@] == self.subscribers@[n as int]@
                },
                None => !self@.contains_key(peer_id@),
            },
    {
        for i in 0..self.subscribers.len()
            invariant
                self.wf(),
                forall|j: int| 0 <= j < i ==> (#[trigger] self.subscribers@[j]).peer_id@ != peer_id@,
        {
            if self.subscribers[i].peer_id == *peer_id {
                proof {
                    lemma_place(self.subscribers@, i as int);
                }
                return Some(i);
            }
        }
        None
    }

    /// Lists a peer that connected, in place of one with the same identity.
    fn connect_peer(&mut self, peer_id: PeerIdentity, send_queue: Q, stop: T)
        requires
            old(self).wf(),
        ensures
            final(self).wf(),
            final(self)@ == connection_applied(
                old(self)@,
                ConnectionCommand::New(peer_id, send_queue, stop),
            ),
    {
        let ghost command = ConnectionCommand::New(peer_id, send_queue, stop);
        let found = self.find(&peer_id);
        let subscriptions: Vec<Vec<u8>> = Vec::new();
        assert(contents(subscriptions@) =~= Seq::<Seq<u8>>::empty());
        let entry = Subscriber { peer_id, subscriptions, send_queue, subscription_coro_stop: stop };
        match found {
            Some(n) => {
                self.subscribers[n] = entry;
            },
            None => {
                self.subscribers.push(entry);
            },
        }
        proof {
            let n: int = match found {
                Some(n) => n as int,
                None => old(self).subscribers@.len() as int,
            };
            let a = old(self).subscribers@;
            let b = self.subscribers@;
            assert(b[n] == entry);
            assert(forall|i: int| 0 <= i < a.len() && i != n ==> #[trigger] b[i] == a[i]);
            assert forall|i: int| 0 <= i < a.len() && i != n implies (#[trigger] a[i]).peer_id@
                != peer_id@ by {
                lemma_place(a, i);
                if found is Some {
                    lemma_place(a, n);
                }
            }
            assert(distinct(b)) by {
                assert forall|i: int, j: int| 0 <= i < j < b.len() implies (#[trigger] b[i]).peer_id@
                    != (#[trigger] b[j]).peer_id@ by {
                    if i != n {
                        assert(b[i] == a[i]);
                    }
                    if j != n {
                        assert(b[j] == a[j]);
                    }
                }
            }
            lemma_update(a, b, n, *self, *old(self));
        }
    }

    /// Takes a peer off the list; nothing is done when it is not there. The result is for the
    /// monitor of the socket, either way.
    pub fn disconnect_peer(&mut self, peer_id: PeerIdentity) -> (r: SocketEvent)
        requires
            old(self).wf(),
        ensures
            final(self).wf(),
            final(self)@ == old(self)@.remove(peer_id@),
            r == SocketEvent::Disconnected(peer_id),
    {
        match self.find(&peer_id) {
            Some(n) => {
                self.subscribers.remove(n);
                proof {
                    let a = old(self).subscribers@;
                    let b = self.subscribers@;
                    let n = n as int;
                    assert(b =~= a.remove(n));
                    assert(distinct(b)) by {
                        assert forall|i: int, j: int| 0 <= i < j < b.len() implies (
                        #[trigger] b[i]).peer_id@ != (#[trigger] b[j]).peer_id@ by {
                            let k = if i < n {
                                i
                            } else {
                                i + 1
                            };
                            let l = if j < n {
                                j
                            } else {
                                j + 1
                            };
                            assert(b[i] == a[k] && b[j] == a[l]);
                        }
                    }
                    lemma_removed(*old(self), *self, n);
                }
            },
            None => {
                assert(self@ =~= old(self)@.remove(peer_id@));
            },
        }
        SocketEvent::Disconnected(peer_id)
    }

    /// Applies the commands that were waiting on the channel of connections, until it gave
    /// `end`. Besides the result come the events for the monitor of the socket.
    pub fn process_connections(
        &mut self,
        commands: Vec<ConnectionCommand<Q, T>>,
        end: TryRecvError,
    ) -> (r: (Result<(), ZmqError>, Vec<SocketEvent>))
        requires
            old(self).wf(),
        ensures
            final(self).wf(),
            final(self)@ == connections_applied(old(self)@, commands@),
            drained(end, r.0),
            disconnected(r.1@) == closed_peers(commands@),
    {
        let ghost all = commands@;
        let mut events: Vec<SocketEvent> = Vec::new();
        assert(all.take(0) =~= Seq::<ConnectionCommand<Q, T>>::empty());
        assert(disconnected(events@) =~= closed_peers(all.take(0)));
        for command in it: commands
            invariant
                self.wf(),
                it.seq() == all,
                self@ == connections_applied(old(self)@, all.take(it.index() as int)),
                disconnected(events@) == closed_peers(all.take(it.index() as int)),
        {
            proof {
                let n = it.index() as int;
                assert(all.take(n + 1).drop_last() =~= all.take(n));
                assert(all.take(n + 1).last() == command);
            }
            let ghost told = events@;
            match command {
                ConnectionCommand::New(peer_id, send_queue, stop) => {
                    self.connect_peer(peer_id, send_queue, stop);
                },
                ConnectionCommand::Closed(peer_id) => {
                    let event = self.disconnect_peer(peer_id);
                    events.push(event);
                    assert(disconnected(events@) =~= disconnected(told).push(peer_id@));
                },
            }
        }
        assert(all.take(all.len() as int) =~= all);
        (end_of_commands(end), events)
    }

    /// Applies the commands that were waiting on the channel of subscriptions, until it gave
    /// `end`.
    pub fn process_subscriptions(
        &mut self,
        commands: Vec<SubscriptionCommand>,
        end: TryRecvError,
    ) -> (r: Result<(), ZmqError>)
        requires
            old(self).wf(),
        ensures
            final(self).wf(),
            final(self)@ == subscriptions_applied(old(self)@, commands@),
            drained(end, r),
    {
        let ghost all = commands@;
        assert(all.take(0) =~= Seq::<SubscriptionCommand>::empty());
        for command in it: commands
            invariant
                self.wf(),
                it.seq() == all,
                self@ == subscriptions_applied(old(self)@, all.take(it.index() as int)),
        {
            proof {
                let n = it.index() as int;
                assert(all.take(n + 1).drop_last() =~= all.take(n));
                assert(all.take(n + 1).last() == command);
            }
            self.apply_subscription(command);
        }
        assert(all.take(all.len() as int) =~= all);
        end_of_commands(end)
    }

    fn apply_subscription(&mut self, command: SubscriptionCommand)
        requires
            old(self).wf(),
        ensures
            final(self).wf(),
            final(self)@ == subscription_applied(old(self)@, command),
    {
        match command {
            SubscriptionCommand::Subscribe(peer_id, topic) => {
                if let Some(n) = self.find(&peer_id) {
                    let ghost before = contents(self.subscribers@[n as int].subscriptions@);
                    self.subscribers[n].subscriptions.push(topic);
                    proof {
                        let b = self.subscribers@[n as int];
                        assert(contents(b.subscriptions@) =~= before.push(topic@));
                        lemma_changed(*old(self), *self, n as int);
                    }
                }
            },
            SubscriptionCommand::Unsubscribe(peer_id, topic) => {
                if let Some(n) = self.find(&peer_id) {
                    remove_first(&mut self.subscribers[n].subscriptions, &topic);
                    proof {
                        lemma_changed(*old(self), *self, n as int);
                    }
                }
            },
        }
    }

    /// The places in the list of the peers that get the message: those that subscribed to a
    /// prefix of its first frame. A message without frames goes to nobody.
    pub fn fanout(&self, message: &ZmqMessage) -> (r: Vec<usize>)
        requires
            self.wf(),
        ensures
            chosen(*self, message@, r@),
    {
        let mut r: Vec<usize> = Vec::new();
        let first_frame = match message.get(0) {
            Some(frame) => frame,
            None => {
                return r;
            },
        };
        for n in 0..self.subscribers.len()
            invariant
                message@.len() > 0,
                first_frame@ == message@[0],
                forall|i: int, j: int| 0 <= i < j < r@.len() ==> r@[i] < r@[j],
                forall|k: usize| #[trigger]
                    r@.contains(k) <==> k < n && subscribed(
                        contents(self.subscribers@[k as int].subscriptions@),
                        first_frame@,
                    ),
        {
            let ghost before = r@;
            if any_prefix(&self.subscribers[n].subscriptions, first_frame) {
                assert forall|i: int| 0 <= i < before.len() implies #[trigger] before[i] < n by {
                    assert(before.contains(before[i]));
                }
                r.push(n);
                assert(r@[before.len() as int] == n);
                assert forall|k: usize| #[trigger] r@.contains(k) <==> before.contains(k) || k
                    == n by {
                    if before.contains(k) {
                        let i = choose|i: int| 0 <= i < before.len() && before[i] == k;
                        assert(r@[i] == k);
                    }
                    if r@.contains(k) && k != n {
                        let i = choose|i: int| 0 <= i < r@.len() && r@[i] == k;
                        assert(before[i] == k);
                    }
                }
            }
        }
        assert forall|n: usize| n < self.subscribers@.len() implies self@.contains_key(
            (#[trigger] self.subscribers@[n as int]).peer_id@,
        ) && self@[self.subscribers@[n as int].peer_id@] == self.subscribers@[n as int]@ by {
            lemma_place(self.subscribers@, n as int);
        }
        r
    }

    /// Begins to send a message: applies all commands that were waiting on the channel of
    /// connections, then all that were waiting on the channel of subscriptions, and only then
    /// chooses the receivers, as [`PubSocket::fanout`] does.
    ///
    /// A channel that can give no more commands ends it with an error, that of connections before
    /// any subscription is looked at. Besides come the events for the monitor of the socket.
    pub fn begin_send(
        &mut self,
        connections: Vec<ConnectionCommand<Q, T>>,
        connections_end: TryRecvError,
        subscriptions: Vec<SubscriptionCommand>,
        subscriptions_end: TryRecvError,
        message: &ZmqMessage,
    ) -> (r: (Result<Vec<usize>, ZmqError>, Vec<SocketEvent>))
        requires
            old(self).wf(),
        ensures
            final(self).wf(),
            disconnected(r.1@) == closed_peers(connections@),
            match (connections_end, subscriptions_end) {
                (TryRecvError::Disconnected, _) => {
                    &&& final(self)@ == connections_applied(old(self)@, connections@)
                    &&& r.0 matches Err(ZmqError::Other(m)) && m@ == "Command channel closed"@
                },
                (TryRecvError::Empty, TryRecvError::Disconnected) => {
                    &&& final(self)@ == commands_applied(old(self)@, connections@, subscriptions@)
                    &&& r.0 matches Err(ZmqError::Other(m)) && m@ == "Command channel closed"@
                },
                (TryRecvError::Empty, TryRecvError::Empty) => {
                    &&& final(self)@ == commands_applied(old(self)@, connections@, subscriptions@)
                    &&& r.0 matches Ok(places) && chosen(*final(self), message@, places@)
                },
            },
    {
        let (result, events) = self.process_connections(connections, connections_end);
        if let Err(e) = result {
            return (Err(e), events);
        }
        match self.process_subscriptions(subscriptions, subscriptions_end) {
            Err(e) => (Err(e), events),
            Ok(_) => (Ok(self.fanout(message)), events),
        }
    }

    /// Takes the outcome of writing to each peer that got the message.
    ///
    /// A peer whose connection is broken is taken off the list. Other transport errors change
    /// nothing. Of the remaining errors the last one is the outcome of sending. Besides it come
    /// the events for the monitor of the socket.
    pub fn conclude_send(&mut self, results: Vec<(PeerIdentity, Result<(), CodecError>)>) -> (r: (
        Result<(), ZmqError>,
        Vec<SocketEvent>,
    ))
        requires
            old(self).wf(),
        ensures
            final(self).wf(),
            final(self)@ == old(self)@.remove_keys(broken_pipes(results@).to_set()),
            disconnected(r.1@) == broken_pipes(results@),
            r.0 == match last_failure(results@) {
                Some(e) => Err::<(), ZmqError>(ZmqError::Codec(e)),
                None => Ok::<(), ZmqError>(()),
            },
    {
        let ghost all = results@;
        let mut events: Vec<SocketEvent> = Vec::new();
        let mut final_result: Result<(), ZmqError> = Ok(());
        assert(all.take(0) =~= Seq::<(PeerIdentity, Result<(), CodecError>)>::empty());
        assert(disconnected(events@) =~= broken_pipes(all.take(0)));
        assert(self@ =~= self@.remove_keys(broken_pipes(all.take(0)).to_set()));
        for item in it: results
            invariant
                self.wf(),
                it.seq() == all,
                self@ == old(self)@.remove_keys(broken_pipes(all.take(it.index() as int)).to_set()),
                disconnected(events@) == broken_pipes(all.take(it.index() as int)),
                final_result == match last_failure(all.take(it.index() as int)) {
                    Some(e) => Err::<(), ZmqError>(ZmqError::Codec(e)),
                    None => Ok::<(), ZmqError>(()),
                },
        {
            let ghost n = it.index() as int;
            let ghost told = events@;
            let ghost gone = broken_pipes(all.take(n));
            proof {
                assert(all.take(n + 1).drop_last() =~= all.take(n));
                assert(all.take(n + 1).last() == item);
            }
            let (peer, result) = item;
            match result {
                Ok(_) => {},
                Err(CodecError::Io(e)) => {
                    if e.kind == ErrorKind::BrokenPipe {
                        let event = self.disconnect_peer(peer);
                        events.push(event);
                        proof {
                            assert(disconnected(events@) =~= disconnected(told).push(peer@));
                            gone.lemma_push_to_set_commute(peer@);
                            assert(self@ =~= old(self)@.remove_keys(gone.push(peer@).to_set()));
                        }
                    }
                },
                Err(e) => {
                    final_result = Err(ZmqError::Codec(e));
                },
            }
        }
        assert(all.take(all.len() as int) =~= all);
        (final_result, events)
    }
}

/// The peers that get a message of these frames: those that subscribed to a prefix of the first.
pub open spec fn recipients<Q, T>(peers: Peers<Q, T>, frames: Seq<Seq<u8>>) -> Set<Seq<u8>> {
    Set::new(
        |id: Seq<u8>|
            frames.len() > 0 && peers.contains_key(id) && subscribed(
                peers[id].subscriptions,
                frames[0],
            ),
    )
}

/// The peers after the changes in who is connected, and then those in what they are subscribed
/// to.
pub open spec fn commands_applied<Q, T>(
    peers: Peers<Q, T>,
    connections: Seq<ConnectionCommand<Q, T>>,
    subscriptions: Seq<SubscriptionCommand>,
) -> Peers<Q, T> {
    subscriptions_applied(connections_applied(peers, connections), subscriptions)
}

/// `places` are, in ascending order, exactly the places in the list of the peers that get a
/// message of these frames.
pub open spec fn chosen<Q, T>(
    socket: PubSocket<Q, T>,
    frames: Seq<Seq<u8>>,
    places: Seq<usize>,
) -> bool {
    &&& forall|i: int, j: int| 0 <= i < j < places.len() ==> places[i] < places[j]
    &&& forall|n: usize| #[trigger]
        places.contains(n) <==> n < socket.subscribers@.len() && recipients(
            socket@,
            frames,
        ).contains(socket.subscribers@[n as int].peer_id@)
}

/// The peers to which writing failed because the connection is broken, in order.
pub open spec fn broken_pipes(results: Seq<(PeerIdentity, Result<(), CodecError>)>) -> Seq<Seq<u8>>
    decreases results.len(),
{
    if results.len() == 0 {
        Seq::empty()
    } else {
        let rest = broken_pipes(results.drop_last());
        match results.last().1 {
            Err(CodecError::Io(e)) if e.kind == ErrorKind::BrokenPipe => rest.push(
                results.last().0@,
            ),
            _ => rest,
        }
    }
}

/// The last error that is not one of the transport.
pub open spec fn last_failure(results: Seq<(PeerIdentity, Result<(), CodecError>)>) -> Option<
    CodecError,
>
    decreases results.len(),
{
    if results.len() == 0 {
        None
    } else {
        match results.last().1 {
            Err(CodecError::Protocol(m)) => Some(CodecError::Protocol(m)),
            _ => last_failure(results.drop_last()),
        }
    }
}

/// What a peer asks for with a message: to subscribe (`true`) or to unsubscribe, and the topic.
/// Only a message of one frame that begins with 1 or 0 asks for anything.
pub open spec fn request<G, C>(message: Message<G, C>) -> Option<(bool, Seq<u8>)> {
    match message {
        Message::Message(m) if m@.len() == 1 && m@[0].len() > 0 && m@[0][0] <= 1 => Some(
            (m@[0][0] == 1, m@[0].drop_first()),
        ),
        _ => None,
    }
}

/// The command that says what the peer `id` asks for.
pub open spec fn requests(
    command: Option<SubscriptionCommand>,
    id: Seq<u8>,
    request: Option<(bool, Seq<u8>)>,
) -> bool {
    match request {
        None => command is None,
        Some((true, topic)) => command matches Some(SubscriptionCommand::Subscribe(peer, data))
            && peer@ == id && data@ == topic,
        Some((false, topic)) => command matches Some(SubscriptionCommand::Unsubscribe(peer, data))
            && peer@ == id && data@ == topic,
    }
}

/// The command for which a message of a peer asks, if it asks for one.
pub fn message_received<G, C>(peer_id: &PeerIdentity, message: Message<G, C>) -> (r: Option<
    SubscriptionCommand,
>)
    ensures
        requests(r, peer_id@, request(message)),
{
    let data = match message {
        Message::Message(m) => {
            if m.len() != 1 {
                return None;
            }
            let mut frames = m.into_vec();
            let ghost listed = frames@;
            assert(contents(listed)[0] == listed[0]@);
            match frames.pop() {
                Some(frame) => frame,
                None => {
                    return None;
                },
            }
        },
        _ => {
            return None;
        },
    };
    if data.is_empty() {
        return None;
    }
    let first: u8 = data[0];
    let mut topic = data;
    topic.remove(0);
    assert(topic@ =~= data@.drop_first());
    if first == 1 {
        Some(SubscriptionCommand::Subscribe(peer_id.clone(), topic))
    } else if first == 0 {
        Some(SubscriptionCommand::Unsubscribe(peer_id.clone(), topic))
    } else {
        None
    }
}

/// What happens to the task that reads from a peer.
pub enum PeerEvent<G, C> {
    /// The socket no longer lists the peer.
    Stop,
    /// The connection gave this; nothing when the peer has closed it.
    Received(Option<Result<Message<G, C>, CodecError>>),
}

/// What the task that reads from a peer does next.
pub enum PeerAction<Q, T> {
    /// Pass the command on, if there is one, and go on reading.
    Forward(Option<SubscriptionCommand>),
    /// Pass the command on, and end.
    Leave(ConnectionCommand<Q, T>),
    /// End.
    Stop,
}

/// What the task that reads from the peer does about `event`.
pub fn peer_step<G, C, Q, T>(peer_id: &PeerIdentity, event: PeerEvent<G, C>) -> (r: PeerAction<Q, T>)
    ensures
        match event {
            PeerEvent::Stop => r is Stop,
            PeerEvent::Received(Some(Ok(message))) => r matches PeerAction::Forward(command)
                && requests(command, peer_id@, request(message)),
            PeerEvent::Received(_) => r matches PeerAction::Leave(ConnectionCommand::Closed(peer))
                && peer@ == peer_id@,
        },
{
    match event {
        PeerEvent::Stop => PeerAction::Stop,
        PeerEvent::Received(Some(Ok(message))) => PeerAction::Forward(
            message_received(peer_id, message),
        ),
        PeerEvent::Received(Some(Err(_))) => PeerAction::Leave(peer_disconnected(peer_id)),
        PeerEvent::Received(None) => PeerAction::Leave(peer_disconnected(peer_id)),
    }
}

/// The command that takes the peer off the list.
pub fn peer_disconnected<Q, T>(peer_id: &PeerIdentity) -> (r: ConnectionCommand<Q, T>)
    ensures
        r matches ConnectionCommand::Closed(peer) && peer@ == peer_id@,
{
    ConnectionCommand::Closed(peer_id.clone())
}

/// What a drained channel of commands comes to.
fn end_of_commands(end: TryRecvError) -> (r: Result<(), ZmqError>)
    ensures
        drained(end, r),
{
    match end {
        TryRecvError::Empty => Ok(()),
        TryRecvError::Disconnected => Err(ZmqError::Other("Command channel closed")),
    }
}

/// The map of peers after the entry at `n` changed, but for the identity.
proof fn lemma_changed<Q, T>(before: PubSocket<Q, T>, after: PubSocket<Q, T>, n: int)
    requires
        before.wf(),
        0 <= n < before.subscribers@.len(),
        after.subscribers@ == before.subscribers@.update(n, after.subscribers@[n]),
        after.subscribers@[n].peer_id == before.subscribers@[n].peer_id,
    ensures
        after.wf(),
        after@ == before@.insert(after.subscribers@[n].peer_id@, after.subscribers@[n]@),
{
    let a = before.subscribers@;
    let b = after.subscribers@;
    assert forall|i: int| 0 <= i < b.len() implies (#[trigger] b[i]).peer_id == a[i].peer_id by {}
    lemma_update(a, b, n, after, before);
}

/// The map of peers after the entry at `n` was taken out.
proof fn lemma_removed<Q, T>(before: PubSocket<Q, T>, after: PubSocket<Q, T>, n: int)
    requires
        before.wf(),
        after.wf(),
        0 <= n < before.subscribers@.len(),
        after.subscribers@ == before.subscribers@.remove(n),
    ensures
        after@ == before@.remove(before.subscribers@[n].peer_id@),
{
    let a = before.subscribers@;
    let b = after.subscribers@;
    let m = before@.remove(a[n].peer_id@);
    assert forall|x: Seq<u8>| after@.contains_key(x) <==> #[trigger] m.contains_key(x) by {
        if is_peer(b, x) {
            let j = place(b, x);
            let k = if j < n {
                j
            } else {
                j + 1
            };
            assert(a[k].peer_id@ == x);
            lemma_place(a, k);
            lemma_place(a, n);
        }
        if is_peer(a, x) && x != a[n].peer_id@ {
            let j = place(a, x);
            let k = if j < n {
                j
            } else {
                j - 1
            };
            assert(b[k].peer_id@ == x);
        }
    }
    assert forall|x: Seq<u8>| after@.contains_key(x) implies #[trigger] after@[x] == m[x] by {
        let j = place(b, x);
        let k = if j < n {
            j
        } else {
            j + 1
        };
        assert(b[j] == a[k]);
        lemma_place(a, k);
    }
    assert(after@ =~= m);
}

/// The map of peers after the entry at `n` was written.
proof fn lemma_update<Q, T>(
    a: Seq<Subscriber<Q, T>>,
    b: Seq<Subscriber<Q, T>>,
    n: int,
    after: PubSocket<Q, T>,
    before: PubSocket<Q, T>,
)
    requires
        a == before.subscribers@,
        b == after.subscribers@,
        distinct(a),
        distinct(b),
        0 <= n < b.len(),
        n <= a.len(),
        b.len() == if n < a.len() {
            a.len()
        } else {
            a.len() + 1
        },
        n < a.len() ==> a[n].peer_id@ == b[n].peer_id@,
        forall|i: int| 0 <= i < a.len() && i != n ==> #[trigger] b[i] == a[i],
    ensures
        after@ == before@.insert(b[n].peer_id@, b[n]@),
{
    let id = b[n].peer_id@;
    let m = before@.insert(id, b[n]@);
    lemma_place(b, n);
    assert forall|x: Seq<u8>| after@.contains_key(x) <==> #[trigger] m.contains_key(x) by {
        if is_peer(b, x) {
            let j = place(b, x);
            if j != n {
                assert(a[j].peer_id@ == x);
            }
        }
        if is_peer(a, x) {
            let j = place(a, x);
            if j != n {
                assert(b[j].peer_id@ == x);
            } else {
                assert(b[n].peer_id@ == x);
            }
        }
    }
    assert forall|x: Seq<u8>| after@.contains_key(x) implies #[trigger] after@[x] == m[x] by {
        let j = place(b, x);
        if j != n {
            assert(b[j] == a[j]);
            lemma_place(a, j);
        }
    }
    assert(after@ =~= m);
}

} // verus!
