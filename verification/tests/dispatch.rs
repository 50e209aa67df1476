use netcanv::address::Address;
use netcanv::matchmaker::handler::{Event, Handler, HandlerState};
use netcanv::matchmaker::model::{Connection, Error};
use netcanv::matchmaker::registry::{Matchmaker, Outgoing};
use netcanv::protocol::matchmaker::Packet;

fn addr(last: u8) -> Address {
    Address::v4(192, 168, 0, last, 5555)
}

fn flat(out: &[Outgoing]) -> Vec<(Vec<Connection>, Packet)> {
    out.iter().map(|o| (o.targets.clone(), o.packet.clone())).collect()
}

fn error(to: Connection, e: Error) -> Vec<(Vec<Connection>, Packet)> {
    vec![(vec![to], Packet::Error(e.message()))]
}

#[test]
fn room_4217_end_to_end() {
    let mut mm = Matchmaker::new();
    let host = mm.connect(addr(1)).unwrap();
    let a = mm.connect(addr(2)).unwrap();

    let out = mm.incoming_packet(host, Packet::WallhackDHostWithCustomRoomId(4217)).unwrap();
    assert_eq!(flat(&out), vec![(vec![host], Packet::RoomId(4217))]);

    let out = mm.incoming_packet(a, Packet::GetHost(4217)).unwrap();
    assert_eq!(
        flat(&out),
        vec![
            (vec![host], Packet::ClientAddress(a.addr)),
            (vec![a], Packet::HostAddress(host.addr)),
        ]
    );

    let out = mm.incoming_packet(host, Packet::RequestRelay(None)).unwrap();
    assert_eq!(flat(&out), vec![(vec![host], Packet::Relayed(host.addr, vec![]))]);
    let out = mm.incoming_packet(a, Packet::RequestRelay(Some(host.addr))).unwrap();
    assert_eq!(flat(&out), vec![(vec![a], Packet::Relayed(a.addr, vec![]))]);
    assert_eq!(mm.relay_room(host.addr), Some(4217));
    assert_eq!(mm.relay_room(a.addr), Some(4217));

    let out = mm.incoming_packet(a, Packet::Relay(None, b"hi".to_vec())).unwrap();
    assert_eq!(flat(&out), vec![(vec![host], Packet::Relayed(a.addr, b"hi".to_vec()))]);
}

#[test]
fn host_request_is_answered_with_a_room() {
    let mut mm = Matchmaker::new();
    let host = mm.connect(addr(1)).unwrap();
    let out = mm.incoming_packet(host, Packet::Host).unwrap();
    assert_eq!(out.len(), 1);
    assert_eq!(out[0].targets, vec![host]);
    match out[0].packet {
        Packet::RoomId(id) => {
            assert!(id <= 9999);
            assert_eq!(mm.join(id), Ok(host));
        }
        _ => panic!("no room"),
    }
}

#[test]
fn dispatch_with_a_given_draw() {
    let mut mm = Matchmaker::new();
    let host = mm.connect(addr(1)).unwrap();
    let other = mm.connect(addr(2)).unwrap();
    let out = mm.dispatch(host, Packet::Host, Some(42)).unwrap();
    assert_eq!(flat(&out), vec![(vec![host], Packet::RoomId(42))]);
    let out = mm.dispatch(other, Packet::Host, Some(42)).unwrap();
    assert_eq!(flat(&out), error(other, Error::NoFreeRoom));
    let out = mm.dispatch(other, Packet::Host, None).unwrap();
    assert_eq!(flat(&out), error(other, Error::NoFreeRoom));
    assert_eq!(mm.hosted_room(other.addr), None);
}

#[test]
fn soft_failures_are_reported_to_the_sender() {
    let mut mm = Matchmaker::new();
    let host = mm.connect(addr(1)).unwrap();
    let a = mm.connect(addr(2)).unwrap();
    mm.incoming_packet(host, Packet::WallhackDHostWithCustomRoomId(1)).unwrap();

    let out = mm.incoming_packet(a, Packet::WallhackDHostWithCustomRoomId(1)).unwrap();
    assert_eq!(flat(&out), error(a, Error::RoomIdInUse));
    let out = mm.incoming_packet(a, Packet::GetHost(2)).unwrap();
    assert_eq!(flat(&out), error(a, Error::RoomNotFound));
    let out = mm.incoming_packet(a, Packet::RequestRelay(None)).unwrap();
    assert_eq!(flat(&out), error(a, Error::HostDisconnected));
    let out = mm.incoming_packet(a, Packet::RequestRelay(Some(addr(77)))).unwrap();
    assert_eq!(flat(&out), error(a, Error::HostDisconnected));
    let out = mm.incoming_packet(a, Packet::Relay(None, vec![1])).unwrap();
    assert_eq!(flat(&out), error(a, Error::NotARelayClient));
    assert!(mm.is_connected(a));
}

#[test]
fn full_room_is_reported_to_the_sender() {
    let mut mm = Matchmaker::with_member_limit(1);
    let host = mm.connect(addr(1)).unwrap();
    let a = mm.connect(addr(2)).unwrap();
    mm.incoming_packet(host, Packet::WallhackDHostWithCustomRoomId(1)).unwrap();
    mm.incoming_packet(host, Packet::RequestRelay(None)).unwrap();
    let out = mm.incoming_packet(a, Packet::RequestRelay(Some(addr(1)))).unwrap();
    assert_eq!(flat(&out), error(a, Error::RoomFull));
    assert_eq!(mm.relay_room(a.addr), None);
}

#[test]
fn answers_of_the_broker_are_no_requests() {
    let mut mm = Matchmaker::new();
    let a = mm.connect(addr(2)).unwrap();
    let refused = vec![
        Packet::RoomId(1),
        Packet::HostAddress(addr(1)),
        Packet::ClientAddress(addr(1)),
        Packet::Relayed(addr(1), vec![1]),
        Packet::Disconnected(addr(1)),
        Packet::Error("x".to_string()),
    ];
    for packet in refused {
        assert_eq!(mm.incoming_packet(a, packet).err(), Some(Error::InvalidPacket));
    }
    assert!(mm.is_connected(a));
}

#[test]
fn handler_life_cycle() {
    let mut mm = Matchmaker::new();
    let mut host = Handler::new(addr(1));
    let mut guest = Handler::new(addr(2));
    assert_eq!(host.state(), HandlerState::Awaiting);
    assert_eq!(host.addr(), addr(1));

    assert!(host.step(&mut mm, Event::Handshake(true)).is_empty());
    assert!(guest.step(&mut mm, Event::Handshake(true)).is_empty());
    let h = Connection { handle: 0, addr: addr(1) };
    let g = Connection { handle: 1, addr: addr(2) };
    assert_eq!(host.state(), HandlerState::Active(h));
    assert_eq!(guest.state(), HandlerState::Active(g));
    assert!(mm.is_connected(h) && mm.is_connected(g));

    // a second report of the handshake changes nothing
    assert!(host.step(&mut mm, Event::Handshake(false)).is_empty());
    assert_eq!(host.state(), HandlerState::Active(h));

    let out = host.step(&mut mm, Event::Frame(Some(Packet::WallhackDHostWithCustomRoomId(3))));
    assert_eq!(flat(&out), vec![(vec![h], Packet::RoomId(3))]);
    host.step(&mut mm, Event::Frame(Some(Packet::RequestRelay(None))));
    guest.step(&mut mm, Event::Frame(Some(Packet::RequestRelay(Some(addr(1))))));

    // a soft failure leaves the connection open
    let out = guest.step(&mut mm, Event::Frame(Some(Packet::GetHost(9))));
    assert_eq!(flat(&out), error(g, Error::RoomNotFound));
    assert_eq!(guest.state(), HandlerState::Active(g));

    // the end of the stream closes it, and the others are told
    let out = guest.step(&mut mm, Event::End);
    assert_eq!(flat(&out), vec![(vec![h], Packet::Disconnected(addr(2)))]);
    assert_eq!(guest.state(), HandlerState::Closed);
    assert!(!mm.is_connected(g));

    // closed is final
    assert!(guest.step(&mut mm, Event::Frame(Some(Packet::GetHost(3)))).is_empty());
    assert!(guest.step(&mut mm, Event::Handshake(true)).is_empty());
    assert!(guest.step(&mut mm, Event::End).is_empty());
    assert_eq!(guest.state(), HandlerState::Closed);
    assert_eq!(mm.join(3), Ok(h));

    // a frame that cannot be decoded is fatal, and takes the room along
    let out = host.step(&mut mm, Event::Frame(None));
    assert_eq!(flat(&out), vec![(vec![], Packet::Disconnected(addr(1)))]);
    assert_eq!(host.state(), HandlerState::Closed);
    assert_eq!(mm.join(3), Err(Error::RoomNotFound));
}

#[test]
fn handler_closes_on_a_packet_that_is_no_request() {
    let mut mm = Matchmaker::new();
    let mut host = Handler::new(addr(1));
    host.step(&mut mm, Event::Handshake(true));
    host.step(&mut mm, Event::Frame(Some(Packet::Host)));
    let h = Connection { handle: 0, addr: addr(1) };
    assert!(mm.hosted_room(addr(1)).is_some());
    let out = host.step(&mut mm, Event::Frame(Some(Packet::RoomId(1))));
    assert_eq!(flat(&out), vec![(vec![], Packet::Disconnected(addr(1)))]);
    assert_eq!(host.state(), HandlerState::Closed);
    assert!(!mm.is_connected(h));
    assert_eq!(mm.hosted_room(addr(1)), None);
}

#[test]
fn handler_that_fails_the_handshake_is_closed() {
    let mut mm = Matchmaker::new();
    let mut failed = Handler::new(addr(1));
    assert!(failed.step(&mut mm, Event::Handshake(false)).is_empty());
    assert_eq!(failed.state(), HandlerState::Closed);
    let mut early = Handler::new(addr(2));
    assert!(early.step(&mut mm, Event::Frame(Some(Packet::Host))).is_empty());
    assert_eq!(early.state(), HandlerState::Closed);
    let mut gone = Handler::new(addr(3));
    assert!(gone.step(&mut mm, Event::End).is_empty());
    assert_eq!(gone.state(), HandlerState::Closed);
    // no handle was spent on any of them
    assert_eq!(mm.connect(addr(4)).unwrap().handle, 0);
}

#[test]
fn handler_refuses_an_address_that_is_still_open() {
    let mut mm = Matchmaker::new();
    let mut first = Handler::new(addr(1));
    let mut second = Handler::new(addr(1));
    let mut other = Handler::new(addr(2));
    first.step(&mut mm, Event::Handshake(true));
    assert_eq!(first.state(), HandlerState::Active(Connection { handle: 0, addr: addr(1) }));
    assert!(second.step(&mut mm, Event::Handshake(true)).is_empty());
    assert_eq!(second.state(), HandlerState::Closed);
    other.step(&mut mm, Event::Handshake(true));
    assert_eq!(other.state(), HandlerState::Active(Connection { handle: 1, addr: addr(2) }));
    // the refused connection took nothing along
    assert!(mm.is_connected(Connection { handle: 0, addr: addr(1) }));
    // once the first has gone, its address can come again
    first.step(&mut mm, Event::End);
    assert!(!mm.address_is_open(addr(1)));
    let mut third = Handler::new(addr(1));
    third.step(&mut mm, Event::Handshake(true));
    assert_eq!(third.state(), HandlerState::Active(Connection { handle: 2, addr: addr(1) }));
}

#[test]
fn targeted_relay_has_one_target_at_most() {
    let mut mm = Matchmaker::new();
    let mut handlers: Vec<Handler> = (1..=4).map(|i| Handler::new(addr(i))).collect();
    handlers.push(Handler::new(addr(2)));
    for handler in handlers.iter_mut() {
        handler.step(&mut mm, Event::Handshake(true));
    }
    handlers[0].step(&mut mm, Event::Frame(Some(Packet::WallhackDHostWithCustomRoomId(8))));
    for handler in handlers.iter_mut() {
        handler.step(&mut mm, Event::Frame(Some(Packet::RequestRelay(Some(addr(1))))));
    }
    for target in 1..=5 {
        let out = handlers[0].step(
            &mut mm,
            Event::Frame(Some(Packet::Relay(Some(addr(target)), vec![target]))),
        );
        assert_eq!(out.len(), 1);
        let expected: Vec<Connection> = match target {
            2 | 3 | 4 => vec![Connection { handle: target as u64 - 1, addr: addr(target) }],
            _ => vec![],
        };
        assert_eq!(out[0].targets, expected);
        assert_eq!(out[0].packet, Packet::Relayed(addr(1), vec![target]));
    }
}

#[test]
fn second_relay_request_is_acknowledged_and_changes_nothing() {
    let mut mm = Matchmaker::new();
    let host = mm.connect(addr(1)).unwrap();
    let a = mm.connect(addr(2)).unwrap();
    mm.incoming_packet(host, Packet::WallhackDHostWithCustomRoomId(9)).unwrap();
    mm.incoming_packet(host, Packet::RequestRelay(None)).unwrap();
    for _ in 0..3 {
        let out = mm.incoming_packet(a, Packet::RequestRelay(Some(addr(1)))).unwrap();
        assert_eq!(flat(&out), vec![(vec![a], Packet::Relayed(a.addr, vec![]))]);
    }
    let out = mm.incoming_packet(host, Packet::Relay(None, vec![5])).unwrap();
    assert_eq!(flat(&out), vec![(vec![a], Packet::Relayed(host.addr, vec![5]))]);
}

#[test]
fn handler_step_with_a_given_draw() {
    let mut mm = Matchmaker::new();
    let mut host = Handler::new(addr(1));
    host.step_drawn(&mut mm, Event::Handshake(true), None);
    let h = Connection { handle: 0, addr: addr(1) };
    let out = host.step_drawn(&mut mm, Event::Frame(Some(Packet::Host)), Some(9999));
    assert_eq!(flat(&out), vec![(vec![h], Packet::RoomId(9999))]);
    let out = host.step_drawn(&mut mm, Event::Frame(Some(Packet::Host)), None);
    assert_eq!(flat(&out), error(h, Error::NoFreeRoom));
    assert_eq!(mm.hosted_room(addr(1)), Some(9999));
}
