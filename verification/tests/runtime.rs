use zeromq::endpoint::{Endpoint, Host};
use zeromq::error::ZmqError;
use zeromq::runtime::connect::{
    accept_step, begin_accept, bound_endpoint, connect, AcceptAction, AcceptEvent, Target,
    Transports,
};
use zeromq::runtime::task::JoinError;

const ALL: Transports = Transports {
    tcp: true,
    ipc: true,
};

fn tcp() -> Endpoint<&'static str> {
    Endpoint::Tcp(Host::Domain("localhost".to_string()), 5555)
}

#[test]
fn endpoints_choose_their_transport() {
    let endpoint = tcp();
    match connect(&endpoint, &ALL) {
        Ok(Target::Tcp(Host::Domain(name), 5555)) => assert_eq!(name, "localhost"),
        other => panic!("TCP is expected, not {:?}", other),
    }
    match begin_accept(endpoint, &ALL) {
        Ok(Target::Tcp(Host::Domain(name), 5555)) => assert_eq!(name, "localhost"),
        other => panic!("TCP is expected, not {:?}", other),
    }
    let endpoint = Endpoint::Ipc(Some("/tmp/socket"));
    assert!(matches!(
        connect(&endpoint, &ALL),
        Ok(Target::Ipc(&"/tmp/socket"))
    ));
    assert!(matches!(
        begin_accept(endpoint, &ALL),
        Ok(Target::Ipc("/tmp/socket"))
    ));
}

#[test]
fn unnamed_sockets_are_refused() {
    let endpoint: Endpoint<&str> = Endpoint::Ipc(None);
    match connect(&endpoint, &ALL) {
        Err(ZmqError::Socket(m)) => assert_eq!(m, "Cannot connect to an unnamed ipc socket"),
        other => panic!("an error is expected, not {:?}", other),
    }
    match begin_accept(endpoint, &ALL) {
        Err(ZmqError::Socket(m)) => assert_eq!(
            m,
            "Cannot begin accepting peers at an unnamed ipc socket"
        ),
        other => panic!("an error is expected, not {:?}", other),
    }
}

#[test]
fn transports_tell_what_they_support() {
    let only_tcp = Transports {
        tcp: true,
        ipc: false,
    };
    assert!(only_tcp.supports(&tcp()));
    assert!(!only_tcp.supports(&Endpoint::Ipc(Some("/tmp/socket"))));
    assert!(!only_tcp.supports(&Endpoint::<&str>::Ipc(None)));
}

#[test]
fn bound_addresses_are_reported_unless_asked_by_name() {
    let any = Host::Ipv4([0, 0, 0, 0]);
    let endpoint: Endpoint<()> = bound_endpoint(any, Host::Ipv4([127, 0, 0, 1]), 4000);
    assert!(matches!(
        endpoint,
        Endpoint::Tcp(Host::Ipv4([127, 0, 0, 1]), 4000)
    ));
    let mut address = [0; 16];
    address[15] = 1;
    let endpoint: Endpoint<()> = bound_endpoint(Host::Ipv6([0; 16]), Host::Ipv6(address), 4010);
    assert!(matches!(endpoint, Endpoint::Tcp(Host::Ipv6(a), 4010) if a == address));
    let name = Host::Domain("localhost".to_string());
    let endpoint: Endpoint<()> = bound_endpoint(name, Host::Ipv4([127, 0, 0, 1]), 1);
    assert!(matches!(endpoint, Endpoint::Tcp(Host::Domain(n), 1) if n == "localhost"));
}

#[test]
fn join_errors_tell_their_cause() {
    let cancelled: JoinError<()> = JoinError::Cancelled;
    assert!(cancelled.is_cancelled());
    assert!(!cancelled.is_panic());
    let panicked = JoinError::Panic("payload");
    assert!(!panicked.is_cancelled());
    assert!(panicked.is_panic());
}

#[test]
fn accepting_goes_on_until_it_is_stopped() {
    let accepted: Result<char, &str> = Ok('c');
    assert!(matches!(
        accept_step(AcceptEvent::Accepted(accepted)),
        AcceptAction::Hand(Ok('c'))
    ));
    let failed: Result<char, &str> = Err("refused");
    assert!(matches!(
        accept_step(AcceptEvent::Accepted(failed)),
        AcceptAction::Hand(Err("refused"))
    ));
    let stopped: AcceptAction<char> = accept_step(AcceptEvent::Stop);
    assert!(matches!(stopped, AcceptAction::Stop));
}
