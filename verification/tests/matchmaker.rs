use netcanv::address::Address;
use netcanv::matchmaker::model::{Connection, Error, MAX_ROOM_ID};
use netcanv::matchmaker::registry::{whrc_custom_id_host, Matchmaker, Outgoing};
use netcanv::protocol::matchmaker::{error_packet, Packet, DEFAULT_PORT};

fn addr(last: u8, port: u16) -> Address {
    Address::v4(10, 0, 0, last, port)
}

fn open(mm: &mut Matchmaker, last: u8) -> Connection {
    mm.connect(addr(last, 4000)).unwrap()
}

fn targets(out: &Outgoing) -> Vec<Connection> {
    out.targets.clone()
}

#[test]
fn address_from_octets() {
    assert_eq!(Address::v4(127, 0, 0, 1, 62137), Address::V4 { ip: 0x7f00_0001, port: 62137 });
    assert_eq!(Address::v4(255, 255, 255, 255, 0), Address::V4 { ip: u32::MAX, port: 0 });
    assert_eq!(Address::v4(1, 2, 3, 4, 5).port(), 5);
    assert!(Address::v4(1, 2, 3, 4, 5).is_ipv4());
    let v6 = Address::V6 { ip: 1, port: 9, flowinfo: 0, scope_id: 0 };
    assert!(!v6.is_ipv4());
    assert_eq!(v6.port(), 9);
}

#[test]
fn default_port_and_error_packet() {
    assert_eq!(DEFAULT_PORT, 62137);
    assert_eq!(error_packet("nope"), Packet::Error("nope".to_string()));
}

#[test]
fn connections_get_fresh_handles() {
    let mut mm = Matchmaker::new();
    let a = mm.connect(addr(1, 1)).unwrap();
    let b = mm.connect(addr(1, 2)).unwrap();
    assert_eq!(a, Connection { handle: 0, addr: addr(1, 1) });
    assert_eq!(b, Connection { handle: 1, addr: addr(1, 2) });
    assert!(mm.is_connected(a));
    assert!(mm.is_connected(b));
    mm.disconnect(a);
    assert!(!mm.is_connected(a));
    assert!(mm.is_connected(b));
}

#[test]
fn address_stands_for_one_connection_at_a_time() {
    let mut mm = Matchmaker::new();
    let a = mm.connect(addr(1, 1)).unwrap();
    assert_eq!(mm.connect(addr(1, 1)), None);
    assert_eq!(mm.connect(addr(1, 1)), None);
    assert!(mm.is_connected(a));
    // nothing was spent on the refusals
    let b = mm.connect(addr(1, 2)).unwrap();
    assert_eq!(b.handle, 1);
    // once the connection has gone, its address can come again
    mm.disconnect(a);
    let again = mm.connect(addr(1, 1)).unwrap();
    assert_eq!(again, Connection { handle: 2, addr: addr(1, 1) });
    assert!(!mm.is_connected(a));
    assert!(mm.is_connected(again));
}

#[test]
fn open_addresses() {
    let mut mm = Matchmaker::new();
    assert!(!mm.address_is_open(addr(1, 1)));
    let a = mm.connect(addr(1, 1)).unwrap();
    let b = mm.connect(addr(2, 1)).unwrap();
    assert!(mm.address_is_open(addr(1, 1)));
    assert!(mm.address_is_open(addr(2, 1)));
    assert!(!mm.address_is_open(addr(1, 2)));
    mm.disconnect(a);
    assert!(!mm.address_is_open(addr(1, 1)));
    assert!(mm.address_is_open(addr(2, 1)));
    // a handle is open under its own address only
    assert!(mm.is_connected(b));
    assert!(!mm.is_connected(Connection { handle: b.handle, addr: addr(9, 9) }));
    assert!(!mm.is_connected(Connection { handle: 77, addr: b.addr }));
}

#[test]
fn member_under_a_wrong_address_counts_as_gone() {
    let mut mm = Matchmaker::new();
    let host = open(&mut mm, 1);
    let a = open(&mut mm, 2);
    let forged = Connection { handle: a.handle, addr: addr(9, 4000) };
    whrc_custom_id_host(&mut mm, host, 5).unwrap();
    mm.add_relay(host, None).unwrap();
    mm.add_relay(forged, Some(host.addr)).unwrap();
    mm.add_relay(a, Some(host.addr)).unwrap();
    let out = mm.relay(host, None, vec![1]).unwrap();
    assert_eq!(targets(&out), vec![a]);
    let out = mm.relay(host, Some(forged.addr), vec![1]).unwrap();
    assert!(out.targets.is_empty());
}

#[test]
fn random_rooms_are_pairwise_distinct() {
    let mut mm = Matchmaker::new();
    let mut ids = Vec::new();
    for i in 0..200u8 {
        let host = open(&mut mm, i);
        let id = mm.host(host).unwrap();
        assert!(id <= MAX_ROOM_ID);
        assert!(!ids.contains(&id));
        assert_eq!(mm.join(id), Ok(host));
        assert_eq!(mm.hosted_room(host.addr), Some(id));
        ids.push(id);
    }
}

#[test]
fn random_draws_vary_and_avoid_open_rooms() {
    let mut mm = Matchmaker::new();
    let low = open(&mut mm, 1);
    let high = open(&mut mm, 2);
    assert_eq!(whrc_custom_id_host(&mut mm, low, 0), Ok(0));
    assert_eq!(whrc_custom_id_host(&mut mm, high, MAX_ROOM_ID), Ok(MAX_ROOM_ID));
    let mut seen = Vec::new();
    for _ in 0..200 {
        let id = mm.find_free_room_id().unwrap();
        assert!(0 < id && id < MAX_ROOM_ID);
        if !seen.contains(&id) {
            seen.push(id);
        }
    }
    assert!(seen.len() > 1);
}

#[test]
fn no_room_is_drawn_once_all_are_taken() {
    let mut mm = Matchmaker::new();
    for id in 0..=MAX_ROOM_ID {
        let host = mm
            .connect(Address::V4 { ip: id, port: 1 })
            .unwrap();
        assert_eq!(whrc_custom_id_host(&mut mm, host, id), Ok(id));
    }
    let late = mm.connect(addr(1, 2)).unwrap();
    assert_eq!(mm.find_free_room_id(), None);
    assert_eq!(mm.host(late), Err(Error::NoFreeRoom));
    assert_eq!(mm.hosted_room(late.addr), None);
    // a room above the range of the draw can still be asked for
    assert_eq!(whrc_custom_id_host(&mut mm, late, MAX_ROOM_ID + 1), Ok(MAX_ROOM_ID + 1));
    // and a room that is given up can be drawn again
    let first = Connection { handle: 0, addr: Address::V4 { ip: 0, port: 1 } };
    mm.disconnect(first);
    let lucky = mm.connect(addr(1, 3)).unwrap();
    let mut drawn = None;
    for _ in 0..100_000 {
        if let Ok(id) = mm.host(lucky) {
            drawn = Some(id);
            break;
        }
    }
    assert_eq!(drawn, Some(0));
}

#[test]
fn draw_cannot_miss_while_no_room_in_range_is_taken() {
    let mut mm = Matchmaker::new();
    for _ in 0..100 {
        assert!(mm.find_free_room_id().unwrap() <= MAX_ROOM_ID);
    }
    // rooms above the range of the draw do not count
    let host = open(&mut mm, 1);
    assert_eq!(whrc_custom_id_host(&mut mm, host, MAX_ROOM_ID + 1), Ok(MAX_ROOM_ID + 1));
    for _ in 0..100 {
        assert!(mm.find_free_room_id().is_some());
    }
}

#[test]
fn drawn_identifier_that_is_taken_counts_as_none() {
    let mut mm = Matchmaker::new();
    let a = open(&mut mm, 1);
    let b = open(&mut mm, 2);
    assert_eq!(mm.host_drawn(a, Some(7)), Ok(7));
    assert_eq!(mm.host_drawn(b, Some(7)), Err(Error::NoFreeRoom));
    assert_eq!(mm.host_drawn(b, None), Err(Error::NoFreeRoom));
    assert_eq!(mm.join(7), Ok(a));
    assert_eq!(mm.hosted_room(b.addr), None);
}

#[test]
fn custom_id_in_use_is_refused_and_nothing_changes() {
    let mut mm = Matchmaker::new();
    let first = open(&mut mm, 1);
    let second = open(&mut mm, 2);
    assert_eq!(whrc_custom_id_host(&mut mm, first, 4217), Ok(4217));
    assert_eq!(whrc_custom_id_host(&mut mm, second, 4217), Err(Error::RoomIdInUse));
    assert_eq!(mm.join(4217), Ok(first));
    assert_eq!(mm.hosted_room(first.addr), Some(4217));
    assert_eq!(mm.hosted_room(second.addr), None);
    // the host itself is refused too, and keeps its room
    assert_eq!(whrc_custom_id_host(&mut mm, first, 4217), Err(Error::RoomIdInUse));
    assert_eq!(mm.join(4217), Ok(first));
}

#[test]
fn custom_id_may_lie_above_the_drawn_range() {
    let mut mm = Matchmaker::new();
    let host = open(&mut mm, 1);
    assert_eq!(whrc_custom_id_host(&mut mm, host, 999_999_999), Ok(999_999_999));
    assert_eq!(mm.join(999_999_999), Ok(host));
}

#[test]
fn host_of_several_rooms() {
    let mut mm = Matchmaker::new();
    let host = open(&mut mm, 1);
    let other = open(&mut mm, 2);
    let client = open(&mut mm, 3);
    assert_eq!(whrc_custom_id_host(&mut mm, host, 1), Ok(1));
    assert_eq!(whrc_custom_id_host(&mut mm, other, 2), Ok(2));
    assert_eq!(mm.add_relay(client, Some(host.addr)), Ok(1));
    // a second room of the same host: both stay open, the later is its room
    assert_eq!(whrc_custom_id_host(&mut mm, host, 3), Ok(3));
    assert_eq!(mm.join(1), Ok(host));
    assert_eq!(mm.join(3), Ok(host));
    assert_eq!(mm.hosted_room(host.addr), Some(3));
    assert_eq!(mm.relay_room(client.addr), Some(1));
    assert_eq!(mm.add_relay(host, None), Ok(3));
    // all of them go when the host goes, and nothing else
    let notice = mm.disconnect(host);
    assert!(notice.targets.is_empty());
    assert_eq!(mm.join(1), Err(Error::RoomNotFound));
    assert_eq!(mm.join(3), Err(Error::RoomNotFound));
    assert_eq!(mm.join(2), Ok(other));
    assert_eq!(mm.hosted_room(host.addr), None);
    assert_eq!(mm.hosted_room(other.addr), Some(2));
    assert_eq!(mm.relay_room(client.addr), None);
    assert_eq!(mm.relay_room(host.addr), None);
    assert!(mm.room_is_free(1) && mm.room_is_free(3) && !mm.room_is_free(2));
}

#[test]
fn room_is_gone_once_its_host_disconnects() {
    let mut mm = Matchmaker::new();
    let host = open(&mut mm, 1);
    let client = open(&mut mm, 2);
    assert_eq!(whrc_custom_id_host(&mut mm, host, 77), Ok(77));
    assert_eq!(mm.add_relay(host, None), Ok(77));
    assert_eq!(mm.add_relay(client, Some(host.addr)), Ok(77));
    assert!(!mm.room_is_free(77));
    let notice = mm.disconnect(host);
    assert!(notice.targets.is_empty());
    assert_eq!(notice.packet, Packet::Disconnected(host.addr));
    assert!(mm.room_is_free(77));
    assert_eq!(mm.join(77), Err(Error::RoomNotFound));
    assert_eq!(mm.hosted_room(host.addr), None);
    assert_eq!(mm.relay_room(client.addr), None);
    assert_eq!(
        mm.relay(client, None, vec![1]).err(),
        Some(Error::NotARelayClient)
    );
    // the identifier can be taken again at once
    let other = open(&mut mm, 3);
    assert_eq!(whrc_custom_id_host(&mut mm, other, 77), Ok(77));
    assert_eq!(mm.join(77), Ok(other));
}

#[test]
fn ipv6_connections_are_served_like_the_others() {
    let mut mm = Matchmaker::new();
    let six = |last: u128| Address::V6 { ip: last, port: 9, flowinfo: 0, scope_id: 0 };
    let host = mm.connect(six(1)).unwrap();
    let a = mm.connect(six(2)).unwrap();
    let b = mm.connect(addr(2, 9)).unwrap();
    assert_eq!(whrc_custom_id_host(&mut mm, host, 66), Ok(66));
    assert_eq!(mm.add_relay(host, None), Ok(66));
    assert_eq!(mm.add_relay(a, Some(host.addr)), Ok(66));
    assert_eq!(mm.add_relay(b, Some(host.addr)), Ok(66));
    let out = mm.relay(b, Some(a.addr), vec![1]).unwrap();
    assert_eq!(targets(&out), vec![a]);
    let notice = mm.disconnect(a);
    assert_eq!(targets(&notice), vec![host, b]);
    mm.disconnect(host);
    assert_eq!(mm.relay_room(b.addr), None);
    assert_eq!(mm.hosted_room(host.addr), None);
    assert_eq!(mm.join(66), Err(Error::RoomNotFound));
}

#[test]
fn join_of_unknown_room_fails() {
    let mm = Matchmaker::new();
    assert_eq!(mm.join(1234), Err(Error::RoomNotFound));
}

#[test]
fn relay_request_without_host_fails() {
    let mut mm = Matchmaker::new();
    let a = open(&mut mm, 1);
    let b = open(&mut mm, 2);
    assert_eq!(mm.add_relay(a, None), Err(Error::HostDisconnected));
    assert_eq!(mm.add_relay(a, Some(b.addr)), Err(Error::HostDisconnected));
    assert_eq!(mm.relay_room(a.addr), None);
}

#[test]
fn relay_from_stranger_fails() {
    let mut mm = Matchmaker::new();
    let host = open(&mut mm, 1);
    let stranger = open(&mut mm, 2);
    whrc_custom_id_host(&mut mm, host, 5).unwrap();
    mm.add_relay(host, None).unwrap();
    assert_eq!(mm.relay(stranger, None, vec![1, 2]).err(), Some(Error::NotARelayClient));
}

#[test]
fn broadcast_reaches_every_other_living_member_once() {
    let mut mm = Matchmaker::new();
    let host = open(&mut mm, 1);
    let a = open(&mut mm, 2);
    let b = open(&mut mm, 3);
    let c = open(&mut mm, 4);
    whrc_custom_id_host(&mut mm, host, 5).unwrap();
    mm.add_relay(host, None).unwrap();
    mm.add_relay(a, Some(host.addr)).unwrap();
    mm.add_relay(b, Some(host.addr)).unwrap();
    mm.add_relay(c, Some(host.addr)).unwrap();

    let out = mm.relay(a, None, vec![9, 8, 7]).unwrap();
    assert_eq!(targets(&out), vec![host, b, c]);
    assert_eq!(out.packet, Packet::Relayed(a.addr, vec![9, 8, 7]));

    // b goes away: it is skipped from now on, and told of nothing
    let notice = mm.disconnect(b);
    assert_eq!(targets(&notice), vec![host, a, c]);
    assert_eq!(notice.packet, Packet::Disconnected(b.addr));
    let out = mm.relay(host, None, vec![]).unwrap();
    assert_eq!(targets(&out), vec![a, c]);
    assert_eq!(out.packet, Packet::Relayed(host.addr, vec![]));
}

#[test]
fn targeted_relay_reaches_the_addressed_member_only() {
    let mut mm = Matchmaker::new();
    let host = open(&mut mm, 1);
    let a = open(&mut mm, 2);
    let b = open(&mut mm, 3);
    whrc_custom_id_host(&mut mm, host, 5).unwrap();
    mm.add_relay(host, None).unwrap();
    mm.add_relay(a, Some(host.addr)).unwrap();
    mm.add_relay(b, Some(host.addr)).unwrap();

    let out = mm.relay(a, Some(b.addr), vec![1]).unwrap();
    assert_eq!(targets(&out), vec![b]);
    // never to the sender itself
    let out = mm.relay(a, Some(a.addr), vec![1]).unwrap();
    assert!(out.targets.is_empty());
    // nor to an address that is no member
    let out = mm.relay(a, Some(addr(99, 1)), vec![1]).unwrap();
    assert!(out.targets.is_empty());
    // nor to a member that has gone
    mm.disconnect(b);
    mm.add_relay(host, None).unwrap();
    let out = mm.relay(a, Some(b.addr), vec![1]).unwrap();
    assert!(out.targets.is_empty());
}

#[test]
fn member_bound_twice_is_listed_once() {
    let mut mm = Matchmaker::with_member_limit(3);
    let host = open(&mut mm, 1);
    let a = open(&mut mm, 2);
    let b = open(&mut mm, 3);
    whrc_custom_id_host(&mut mm, host, 5).unwrap();
    assert_eq!(mm.add_relay(host, None), Ok(5));
    assert_eq!(mm.add_relay(a, Some(host.addr)), Ok(5));
    assert_eq!(mm.add_relay(a, Some(host.addr)), Ok(5));
    assert_eq!(mm.add_relay(host, None), Ok(5));
    assert_eq!(mm.relay_room(a.addr), Some(5));
    let out = mm.relay(host, None, vec![1]).unwrap();
    assert_eq!(targets(&out), vec![a]);
    let out = mm.relay(a, None, vec![1]).unwrap();
    assert_eq!(targets(&out), vec![host]);
    // the repeated requests took no place in the room
    assert_eq!(mm.add_relay(b, Some(host.addr)), Ok(5));
    // and a member of a full room may still ask again
    assert_eq!(mm.add_relay(a, Some(host.addr)), Ok(5));
    let out = mm.relay(host, None, vec![2]).unwrap();
    assert_eq!(targets(&out), vec![a, b]);
    let notice = mm.disconnect(a);
    assert_eq!(targets(&notice), vec![host, b]);
}

#[test]
fn departure_is_announced_to_the_others_only() {
    let mut mm = Matchmaker::new();
    let host = open(&mut mm, 1);
    let a = open(&mut mm, 2);
    let b = open(&mut mm, 3);
    let loner = open(&mut mm, 4);
    whrc_custom_id_host(&mut mm, host, 5).unwrap();
    mm.add_relay(host, None).unwrap();
    mm.add_relay(a, Some(host.addr)).unwrap();
    mm.add_relay(b, Some(host.addr)).unwrap();

    let notice = mm.disconnect(loner);
    assert!(notice.targets.is_empty());

    let notice = mm.disconnect(a);
    assert_eq!(targets(&notice), vec![host, b]);
    assert_eq!(notice.packet, Packet::Disconnected(a.addr));
    assert_eq!(mm.relay_room(a.addr), None);
    // a second notice of the same departure finds nothing to announce
    let notice = mm.disconnect(a);
    assert!(notice.targets.is_empty());
}

#[test]
fn room_lists_no_more_members_than_allowed() {
    let mut mm = Matchmaker::with_member_limit(2);
    assert_eq!(mm.member_limit(), 2);
    assert_eq!(Matchmaker::new().member_limit(), usize::MAX);
    let host = open(&mut mm, 1);
    let a = open(&mut mm, 2);
    let b = open(&mut mm, 3);
    whrc_custom_id_host(&mut mm, host, 5).unwrap();
    assert_eq!(mm.add_relay(host, None), Ok(5));
    assert_eq!(mm.add_relay(a, Some(host.addr)), Ok(5));
    assert_eq!(mm.add_relay(b, Some(host.addr)), Err(Error::RoomFull));
    assert_eq!(mm.relay_room(b.addr), None);
    // a member that has gone is counted until the next fan-out prunes it
    mm.disconnect(a);
    assert_eq!(mm.add_relay(b, Some(host.addr)), Err(Error::RoomFull));
    mm.relay(host, None, vec![]).unwrap();
    assert_eq!(mm.add_relay(b, Some(host.addr)), Ok(5));
    let out = mm.relay(host, None, vec![7]).unwrap();
    assert_eq!(targets(&out), vec![b]);

    let mut none = Matchmaker::with_member_limit(0);
    let host = open(&mut none, 1);
    whrc_custom_id_host(&mut none, host, 5).unwrap();
    assert_eq!(none.add_relay(host, None), Err(Error::RoomFull));
    assert_eq!(none.add_relay(host, Some(addr(9, 9))), Err(Error::HostDisconnected));
}

#[test]
fn error_messages() {
    assert_eq!(Error::RoomFull.message(), "The room is full. Try again later");
    assert!(!Error::RoomFull.is_fatal());
    assert_eq!(Error::NoFreeRoom.message(), "Could not find any more free rooms. Try again");
    assert_eq!(
        Error::RoomNotFound.message(),
        "No room found with the given ID. Check whether you spelled the ID correctly"
    );
    assert_eq!(Error::HostDisconnected.message(), "The host seems to have disconnected");
    assert_eq!(Error::NotARelayClient.message(), "Only relay clients may send Relay packets");
    assert_eq!(Error::RoomIdInUse.message(), "The room ID is already in use. Try another one");
    assert_eq!(Error::InvalidPacket.message(), "Unrecognized or unimplemented packet");
    assert!(Error::InvalidPacket.is_fatal());
    assert!(!Error::NoFreeRoom.is_fatal());
    assert!(!Error::RoomIdInUse.is_fatal());
    assert!(!Error::RoomNotFound.is_fatal());
    assert!(!Error::HostDisconnected.is_fatal());
    assert!(!Error::NotARelayClient.is_fatal());
}
