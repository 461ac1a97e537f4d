use zeromq::codec::Message;
use zeromq::error::{CodecError, ErrorKind, IoError, ZmqError};
use zeromq::message::ZmqMessage;
use zeromq::publisher::subscription::{any_prefix, is_prefix, position, remove_first};
use zeromq::publisher::{
    message_received, peer_disconnected, peer_step, ConnectionCommand, PeerAction, PeerEvent,
    PeerIdentity, PubSocket, SocketEvent, SubscriptionCommand, TryRecvError,
};

type Socket = PubSocket<char, u8>;
type Received = Message<(), ()>;

fn peer(name: &str) -> PeerIdentity {
    PeerIdentity::new(name.as_bytes().to_vec())
}

fn message(frames: &[&[u8]]) -> ZmqMessage {
    ZmqMessage::from_frames(frames.iter().map(|f| f.to_vec()).collect())
}

fn received(frames: &[&[u8]]) -> Received {
    Message::Message(message(frames))
}

fn connect(socket: &mut Socket, name: &str, queue: char) {
    let (result, events) = socket.process_connections(
        vec![ConnectionCommand::New(peer(name), queue, 0)],
        TryRecvError::Empty,
    );
    assert!(result.is_ok());
    assert!(events.is_empty());
}

fn subscribe(socket: &mut Socket, name: &str, topic: &[u8]) {
    let command = SubscriptionCommand::Subscribe(peer(name), topic.to_vec());
    assert!(socket
        .process_subscriptions(vec![command], TryRecvError::Empty)
        .is_ok());
}

fn unsubscribe(socket: &mut Socket, name: &str, topic: &[u8]) {
    let command = SubscriptionCommand::Unsubscribe(peer(name), topic.to_vec());
    assert!(socket
        .process_subscriptions(vec![command], TryRecvError::Empty)
        .is_ok());
}

/// The queues of the peers that get a message with this first frame.
fn targets(socket: &Socket, frame: &[u8]) -> String {
    let mut queues: Vec<char> = socket
        .fanout(&message(&[frame, b"body"]))
        .into_iter()
        .map(|n| socket.subscribers[n].send_queue)
        .collect();
    queues.sort();
    queues.into_iter().collect()
}

fn io_error(kind: ErrorKind) -> CodecError {
    CodecError::Io(IoError {
        kind,
        os_error: None,
        message: "write failed".to_string(),
    })
}

#[test]
fn topics_match_by_prefix() {
    assert!(is_prefix(&vec![], &vec![]));
    assert!(is_prefix(&vec![], &vec![1, 2]));
    assert!(is_prefix(&vec![1, 2], &vec![1, 2]));
    assert!(is_prefix(&vec![1], &vec![1, 2]));
    assert!(!is_prefix(&vec![1, 2], &vec![1]));
    assert!(!is_prefix(&vec![2], &vec![1, 2]));
    assert!(!any_prefix(&vec![], &vec![1]));
    assert!(any_prefix(&vec![vec![2], vec![1]], &vec![1, 2]));
}

#[test]
fn first_equal_topic_is_removed() {
    let mut topics = vec![b"a".to_vec(), b"b".to_vec(), b"a".to_vec(), b"c".to_vec()];
    assert_eq!(position(&topics, &b"a".to_vec()), Some(0));
    assert_eq!(position(&topics, &b"c".to_vec()), Some(3));
    assert_eq!(position(&topics, &b"d".to_vec()), None);
    remove_first(&mut topics, &b"a".to_vec());
    assert_eq!(topics, vec![b"b".to_vec(), b"a".to_vec(), b"c".to_vec()]);
    remove_first(&mut topics, &b"d".to_vec());
    assert_eq!(topics, vec![b"b".to_vec(), b"a".to_vec(), b"c".to_vec()]);
}

#[test]
fn identities_compare_by_their_bytes() {
    assert!(peer("a") == peer("a"));
    assert!(peer("a") != peer("b"));
    assert!(peer("a") != peer("ab"));
    assert!(peer("a").clone() == peer("a"));
    assert_eq!(peer("ab").as_bytes(), &vec![b'a', b'b']);
}

#[test]
fn messages_go_to_subscribers() {
    let mut socket = Socket::new();
    connect(&mut socket, "one", 'a');
    connect(&mut socket, "two", 'b');
    connect(&mut socket, "three", 'c');
    assert_eq!(targets(&socket, b"news"), "");
    subscribe(&mut socket, "one", b"");
    subscribe(&mut socket, "two", b"news.sport");
    subscribe(&mut socket, "two", b"weather");
    assert_eq!(targets(&socket, b"news"), "a");
    assert_eq!(targets(&socket, b"news.sport.tennis"), "ab");
    assert_eq!(targets(&socket, b"weather"), "ab");
    assert_eq!(targets(&socket, b""), "a");
}

#[test]
fn message_without_frames_goes_to_nobody() {
    let mut socket = Socket::new();
    connect(&mut socket, "one", 'a');
    subscribe(&mut socket, "one", b"");
    assert!(socket.fanout(&message(&[])).is_empty());
    assert_eq!(socket.fanout(&message(&[b""])), vec![0]);
}

#[test]
fn unsubscribing_takes_back_one_subscription() {
    let mut socket = Socket::new();
    connect(&mut socket, "one", 'a');
    subscribe(&mut socket, "one", b"x");
    subscribe(&mut socket, "one", b"x");
    unsubscribe(&mut socket, "one", b"x");
    assert_eq!(targets(&socket, b"xy"), "a");
    unsubscribe(&mut socket, "one", b"y");
    assert_eq!(targets(&socket, b"xy"), "a");
    unsubscribe(&mut socket, "one", b"x");
    assert_eq!(targets(&socket, b"xy"), "");
}

#[test]
fn unknown_peers_cannot_subscribe() {
    let mut socket = Socket::new();
    subscribe(&mut socket, "one", b"");
    unsubscribe(&mut socket, "one", b"");
    connect(&mut socket, "one", 'a');
    assert_eq!(targets(&socket, b"x"), "");
}

#[test]
fn connecting_anew_starts_without_subscriptions() {
    let mut socket = Socket::new();
    connect(&mut socket, "one", 'a');
    subscribe(&mut socket, "one", b"");
    connect(&mut socket, "one", 'b');
    assert_eq!(socket.subscribers.len(), 1);
    assert_eq!(targets(&socket, b"x"), "");
    subscribe(&mut socket, "one", b"");
    assert_eq!(targets(&socket, b"x"), "b");
}

#[test]
fn closed_peers_leave_and_are_reported() {
    let mut socket = Socket::new();
    connect(&mut socket, "one", 'a');
    connect(&mut socket, "two", 'b');
    subscribe(&mut socket, "one", b"");
    subscribe(&mut socket, "two", b"");
    let (result, events) = socket.process_connections(
        vec![
            ConnectionCommand::Closed(peer("one")),
            ConnectionCommand::New(peer("three"), 'c', 0),
            ConnectionCommand::Closed(peer("nobody")),
        ],
        TryRecvError::Empty,
    );
    assert!(result.is_ok());
    let told: Vec<Vec<u8>> = events
        .into_iter()
        .map(|SocketEvent::Disconnected(p)| p.as_bytes().clone())
        .collect();
    assert_eq!(told, vec![b"one".to_vec(), b"nobody".to_vec()]);
    assert_eq!(targets(&socket, b"x"), "b");
    assert_eq!(socket.subscribers.len(), 2);
}

#[test]
fn commands_before_the_end_of_a_channel_are_applied() {
    let mut socket = Socket::new();
    let (result, _) = socket.process_connections(
        vec![ConnectionCommand::New(peer("one"), 'a', 0)],
        TryRecvError::Disconnected,
    );
    assert!(matches!(
        result,
        Err(ZmqError::Other("Command channel closed"))
    ));
    let result = socket.process_subscriptions(
        vec![SubscriptionCommand::Subscribe(peer("one"), vec![])],
        TryRecvError::Disconnected,
    );
    assert!(matches!(
        result,
        Err(ZmqError::Other("Command channel closed"))
    ));
    assert_eq!(targets(&socket, b"x"), "a");
}

#[test]
fn broken_pipes_disconnect() {
    let mut socket = Socket::new();
    for (name, queue) in [("one", 'a'), ("two", 'b'), ("three", 'c')] {
        connect(&mut socket, name, queue);
        subscribe(&mut socket, name, b"");
    }
    let (result, events) = socket.conclude_send(vec![
        (peer("one"), Ok(())),
        (peer("two"), Err(io_error(ErrorKind::BrokenPipe))),
        (peer("three"), Err(io_error(ErrorKind::Other))),
    ]);
    assert!(result.is_ok());
    assert_eq!(events.len(), 1);
    let SocketEvent::Disconnected(gone) = &events[0];
    assert!(*gone == peer("two"));
    assert_eq!(targets(&socket, b"x"), "ac");
}

#[test]
fn last_protocol_error_is_the_outcome() {
    let mut socket = Socket::new();
    connect(&mut socket, "one", 'a');
    let (result, events) = socket.conclude_send(vec![
        (peer("one"), Err(CodecError::Protocol("first".to_string()))),
        (peer("two"), Err(CodecError::Protocol("second".to_string()))),
        (peer("three"), Err(io_error(ErrorKind::Other))),
        (peer("four"), Ok(())),
    ]);
    match result {
        Err(ZmqError::Codec(CodecError::Protocol(m))) => assert_eq!(m, "second"),
        other => panic!("an error is expected, not {:?}", other),
    }
    assert!(events.is_empty());
    assert_eq!(socket.subscribers.len(), 1);
}

#[test]
fn disconnecting_reports_every_time() {
    let mut socket = Socket::new();
    connect(&mut socket, "one", 'a');
    let SocketEvent::Disconnected(gone) = socket.disconnect_peer(peer("one"));
    assert!(gone == peer("one"));
    assert!(socket.subscribers.is_empty());
    let SocketEvent::Disconnected(gone) = socket.disconnect_peer(peer("one"));
    assert!(gone == peer("one"));
}

#[test]
fn requests_are_read_from_messages() {
    match message_received(&peer("one"), received(&[b"\x01topic"])) {
        Some(SubscriptionCommand::Subscribe(p, topic)) => {
            assert!(p == peer("one"));
            assert_eq!(topic, b"topic".to_vec());
        }
        other => panic!("a subscription is expected, not {:?}", other),
    }
    match message_received(&peer("one"), received(&[b"\x00"])) {
        Some(SubscriptionCommand::Unsubscribe(p, topic)) => {
            assert!(p == peer("one"));
            assert!(topic.is_empty());
        }
        other => panic!("an unsubscription is expected, not {:?}", other),
    }
    assert!(message_received(&peer("one"), received(&[b"\x02topic"])).is_none());
    assert!(message_received(&peer("one"), received(&[b""])).is_none());
    assert!(message_received(&peer("one"), received(&[])).is_none());
    assert!(message_received(&peer("one"), received(&[b"\x01a", b"\x01b"])).is_none());
    assert!(message_received(&peer("one"), Received::Greeting(())).is_none());
    assert!(message_received(&peer("one"), Received::Command(())).is_none());
}

#[test]
fn reading_task_follows_its_peer() {
    let one = peer("one");
    let action: PeerAction<char, u8> = peer_step::<(), (), _, _>(&one, PeerEvent::Stop);
    assert!(matches!(action, PeerAction::Stop));
    let event = PeerEvent::Received(Some(Ok(received(&[b"\x01t"]))));
    let action: PeerAction<char, u8> = peer_step(&one, event);
    assert!(matches!(
        action,
        PeerAction::Forward(Some(SubscriptionCommand::Subscribe(_, _)))
    ));
    let event = PeerEvent::Received(Some(Ok(received(&[b"noise"]))));
    let action: PeerAction<char, u8> = peer_step(&one, event);
    assert!(matches!(action, PeerAction::Forward(None)));
    let failed: Option<Result<Received, CodecError>> = Some(Err(io_error(ErrorKind::Other)));
    for event in [failed, None] {
        let action: PeerAction<char, u8> = peer_step(&one, PeerEvent::Received(event));
        match action {
            PeerAction::Leave(ConnectionCommand::Closed(p)) => assert!(p == one),
            _ => panic!("the peer is expected to leave"),
        }
    }
    let command: ConnectionCommand<char, u8> = peer_disconnected(&one);
    assert!(matches!(command, ConnectionCommand::Closed(p) if p == one));
}

#[test]
fn messages_give_their_frames() {
    let m = message(&[b"a", b"bc"]);
    assert_eq!(m.len(), 2);
    assert_eq!(m.get(0), Some(&b"a".to_vec()));
    assert_eq!(m.get(1), Some(&b"bc".to_vec()));
    assert_eq!(m.get(2), None);
    assert_eq!(m.into_vec(), vec![b"a".to_vec(), b"bc".to_vec()]);
}

#[test]
fn queued_commands_count_for_the_message() {
    let mut socket = Socket::new();
    connect(&mut socket, "old", 'o');
    subscribe(&mut socket, "old", b"news");
    let (places, events) = socket.begin_send(
        vec![
            ConnectionCommand::New(peer("new"), 'n', 0),
            ConnectionCommand::Closed(peer("old")),
        ],
        TryRecvError::Empty,
        vec![
            SubscriptionCommand::Subscribe(peer("new"), b"news".to_vec()),
            SubscriptionCommand::Subscribe(peer("old"), b"news".to_vec()),
        ],
        TryRecvError::Empty,
        &message(&[b"news of today"]),
    );
    let queues: Vec<char> = places
        .unwrap()
        .into_iter()
        .map(|n| socket.subscribers[n].send_queue)
        .collect();
    assert_eq!(queues, vec!['n']);
    assert_eq!(events.len(), 1);
    assert!(matches!(&events[0], SocketEvent::Disconnected(p) if *p == peer("old")));
}

#[test]
fn closed_channels_end_sending() {
    let mut socket = Socket::new();
    let (result, events) = socket.begin_send(
        vec![
            ConnectionCommand::New(peer("one"), 'a', 0),
            ConnectionCommand::Closed(peer("two")),
        ],
        TryRecvError::Disconnected,
        vec![SubscriptionCommand::Subscribe(peer("one"), vec![])],
        TryRecvError::Empty,
        &message(&[b"x"]),
    );
    assert!(matches!(
        result,
        Err(ZmqError::Other("Command channel closed"))
    ));
    assert_eq!(events.len(), 1);
    assert_eq!(socket.subscribers.len(), 1);
    assert_eq!(targets(&socket, b"x"), "");
    let (result, events) = socket.begin_send(
        vec![],
        TryRecvError::Empty,
        vec![SubscriptionCommand::Subscribe(peer("one"), vec![])],
        TryRecvError::Disconnected,
        &message(&[b"x"]),
    );
    assert!(matches!(
        result,
        Err(ZmqError::Other("Command channel closed"))
    ));
    assert!(events.is_empty());
    assert_eq!(targets(&socket, b"x"), "a");
}
