use netcanv::address::Address;
use netcanv::net::peer::{
    from_wire, has_prefix, pack_argb, to_wire, Brush, Mate, Message, Outbound, Peer, Point,
    StrokePoint, DEFAULT_BRUSH_SIZE,
};
use netcanv::protocol::client as cl;
use netcanv::protocol::matchmaker as mm;

fn addr(last: u8) -> Address {
    Address::v4(172, 16, 0, last, 7000)
}

fn hello(peer_nickname: &str) -> Outbound {
    Outbound::Relay(None, cl::Packet::Hello(peer_nickname.to_string()))
}

#[test]
fn host_asks_for_a_room_first() {
    let (peer, first) = Peer::host("alice");
    assert_eq!(first, mm::Packet::Host);
    assert_eq!(peer.nickname(), "[tWHD!] alice");
    assert!(peer.is_host());
    assert!(!peer.is_relayed());
    assert_eq!(peer.room_id(), None);
    assert_eq!(peer.host_addr(), None);
    assert_eq!(peer.mates().len(), 0);
}

#[test]
fn host_with_custom_id_asks_for_that_room() {
    let (peer, first) = Peer::whd_host_with_custom_id("alice", 4217);
    assert_eq!(first, mm::Packet::WallhackDHostWithCustomRoomId(4217));
    assert_eq!(peer.nickname(), "[tWHD!] alice");
    assert!(peer.is_host());
}

#[test]
fn client_asks_for_the_host_first() {
    let (peer, first) = Peer::join("bob", 12);
    assert_eq!(first, mm::Packet::GetHost(12));
    assert_eq!(peer.nickname(), "[tWHD!] bob");
    assert!(!peer.is_host());
}

#[test]
fn host_handshake_with_the_broker() {
    let (mut peer, _) = Peer::host("alice");
    let r = peer.next_packet(mm::Packet::RoomId(77), None, 0);
    assert_eq!(r.message, Some(Message::Connected));
    assert_eq!(
        r.outbound,
        vec![
            Outbound::Matchmaker(mm::Packet::RequestRelay(None)),
            hello("[tWHD!] alice"),
        ]
    );
    assert_eq!(peer.room_id(), Some(77));
    assert!(!peer.is_relayed());

    // the relay is ready: say hello once more
    let r = peer.next_packet(mm::Packet::Relayed(addr(1), vec![]), None, 0);
    assert_eq!(r.message, None);
    assert_eq!(r.outbound, vec![hello("[tWHD!] alice")]);
}

#[test]
fn client_handshake_with_the_broker() {
    let (mut peer, _) = Peer::join("bob", 77);
    let r = peer.next_packet(mm::Packet::HostAddress(addr(1)), None, 0);
    assert_eq!(r.message, Some(Message::Connected));
    assert_eq!(
        r.outbound,
        vec![
            Outbound::Matchmaker(mm::Packet::RequestRelay(Some(addr(1)))),
            Outbound::Relay(Some(addr(1)), cl::Packet::Hello("[tWHD!] bob".to_string())),
        ]
    );
    assert_eq!(peer.host_addr(), Some(addr(1)));
    assert!(peer.is_relayed());
    assert_eq!(peer.room_id(), None);
}

#[test]
fn packets_that_go_unanswered() {
    let (mut peer, _) = Peer::host("alice");
    for packet in [
        mm::Packet::ClientAddress(addr(2)),
        mm::Packet::Host,
        mm::Packet::GetHost(1),
        mm::Packet::RequestRelay(None),
        mm::Packet::Relay(None, vec![1]),
        mm::Packet::WallhackDHostWithCustomRoomId(3),
    ] {
        let r = peer.next_packet(packet, None, 5);
        assert_eq!(r.message, None);
        assert!(r.outbound.is_empty());
    }
    assert_eq!(peer.room_id(), None);
    assert_eq!(peer.mates().len(), 0);
}

#[test]
fn broker_error_is_handed_on() {
    let (mut peer, _) = Peer::host("alice");
    let r = peer.next_packet(mm::Packet::Error("no".to_string()), None, 0);
    assert_eq!(r.message, Some(Message::Error("no".to_string())));
    assert!(r.outbound.is_empty());
}

#[test]
fn payload_that_does_not_decode_is_dropped() {
    let (mut peer, _) = Peer::host("alice");
    let r = peer.next_packet(mm::Packet::Relayed(addr(2), vec![0xff, 0xfe]), None, 0);
    assert_eq!(r.message, None);
    assert!(r.outbound.is_empty());
    assert_eq!(peer.mates().len(), 0);
}

#[test]
fn empty_payload_is_the_ready_notice_whatever_was_decoded() {
    let (mut peer, _) = Peer::host("alice");
    let r = peer.next_packet(
        mm::Packet::Relayed(addr(2), vec![]),
        Some(cl::Packet::Hello("x".to_string())),
        0,
    );
    assert_eq!(r.message, None);
    assert_eq!(r.outbound, vec![hello("[tWHD!] alice")]);
    assert_eq!(peer.mates().len(), 0);
}

#[test]
fn hello_is_answered_and_registers_the_sender() {
    let (mut host, _) = Peer::host("alice");
    let r = host.next_packet(
        mm::Packet::Relayed(addr(2), vec![1]),
        Some(cl::Packet::Hello("bob".to_string())),
        1234,
    );
    assert_eq!(r.message, Some(Message::Joined("bob".to_string(), Some(addr(2)))));
    assert_eq!(
        r.outbound,
        vec![
            Outbound::Relay(Some(addr(2)), cl::Packet::HiThere("[tWHD!] alice".to_string())),
            Outbound::Relay(Some(addr(2)), cl::Packet::Version(cl::PROTOCOL_VERSION)),
        ]
    );
    assert_eq!(
        host.mates().get(addr(2)),
        Some(&Mate {
            cursor: Point { x: 0, y: 0 },
            cursor_prev: Point { x: 0, y: 0 },
            last_cursor: 1234,
            nickname: "bob".to_string(),
            brush_size: DEFAULT_BRUSH_SIZE,
        })
    );
    assert_eq!(DEFAULT_BRUSH_SIZE, 8);

    // a client reports the arrival without the address
    let (mut client, _) = Peer::join("carol", 1);
    let r = client.decode_payload(addr(2), cl::Packet::Hello("bob".to_string()), 1);
    assert_eq!(r.message, Some(Message::Joined("bob".to_string(), None)));
    assert_eq!(r.outbound.len(), 2);
}

#[test]
fn hi_there_registers_the_sender_silently() {
    let (mut peer, _) = Peer::join("bob", 1);
    let r = peer.decode_payload(addr(1), cl::Packet::HiThere("alice".to_string()), 9);
    assert_eq!(r.message, None);
    assert!(r.outbound.is_empty());
    assert_eq!(peer.mates().len(), 1);
    assert_eq!(peer.mates().get(addr(1)).unwrap().nickname, "alice");
    assert_eq!(peer.mates().get(addr(1)).unwrap().last_cursor, 9);
}

#[test]
fn cursor_moves_a_registered_mate() {
    let (mut peer, _) = Peer::join("bob", 1);
    // not registered: nothing happens
    let r = peer.decode_payload(addr(1), cl::Packet::Cursor(8, 16, 4), 1);
    assert_eq!(r.message, None);
    assert_eq!(peer.mates().len(), 0);

    peer.decode_payload(addr(1), cl::Packet::HiThere("alice".to_string()), 2);
    peer.decode_payload(addr(1), cl::Packet::Cursor(8, 16, 4), 3);
    let r = peer.decode_payload(addr(1), cl::Packet::Cursor(-80, 24, 6), 4);
    assert_eq!(r.message, None);
    assert!(r.outbound.is_empty());
    assert_eq!(
        peer.mates().get(addr(1)),
        Some(&Mate {
            cursor: Point { x: -80, y: 24 },
            cursor_prev: Point { x: 8, y: 16 },
            last_cursor: 4,
            nickname: "alice".to_string(),
            brush_size: 6,
        })
    );
}

#[test]
fn stroke_is_handed_on_and_moves_the_mate() {
    let (mut peer, _) = Peer::join("bob", 1);
    peer.decode_payload(addr(1), cl::Packet::HiThere("alice".to_string()), 2);
    let wire = vec![
        cl::StrokePoint { x: 1, y: 2, color: 0xff00_00ff, brush_size: 8 },
        cl::StrokePoint { x: 3, y: 4, color: 0, brush_size: 10 },
        cl::StrokePoint { x: 5, y: 6, color: 1, brush_size: 12 },
    ];
    let r = peer.decode_payload(addr(1), cl::Packet::Stroke(wire), 50);
    assert_eq!(
        r.message,
        Some(Message::Stroke(vec![
            StrokePoint {
                point: Point { x: 1, y: 2 },
                brush: Brush::Draw { color: 0xff00_00ff, stroke_width: 8 },
            },
            StrokePoint { point: Point { x: 3, y: 4 }, brush: Brush::Erase { stroke_width: 10 } },
            StrokePoint {
                point: Point { x: 5, y: 6 },
                brush: Brush::Draw { color: 1, stroke_width: 12 },
            },
        ]))
    );
    let mate = peer.mates().get(addr(1)).unwrap();
    assert_eq!(mate.cursor_prev, Point { x: 1, y: 2 });
    assert_eq!(mate.cursor, Point { x: 5, y: 6 });
    assert_eq!(mate.last_cursor, 50);
    assert_eq!(mate.brush_size, DEFAULT_BRUSH_SIZE);

    // an empty stroke is handed on, and moves nothing
    let r = peer.decode_payload(addr(1), cl::Packet::Stroke(vec![]), 60);
    assert_eq!(r.message, Some(Message::Stroke(vec![])));
    assert_eq!(peer.mates().get(addr(1)).unwrap().last_cursor, 50);

    // a stroke of a stranger is handed on as well
    let one = vec![cl::StrokePoint { x: 9, y: 9, color: 7, brush_size: 2 }];
    let r = peer.decode_payload(addr(9), cl::Packet::Stroke(one), 70);
    assert!(matches!(r.message, Some(Message::Stroke(_))));
    assert_eq!(peer.mates().len(), 1);
}

#[test]
fn version_check() {
    let (mut peer, _) = Peer::join("bob", 1);
    assert!(cl::compatible_with(cl::PROTOCOL_VERSION));
    assert!(cl::compatible_with(0));
    assert!(!cl::compatible_with(cl::PROTOCOL_VERSION + 1));
    let r = peer.decode_payload(addr(1), cl::Packet::Version(cl::PROTOCOL_VERSION), 0);
    assert_eq!(r.message, None);
    let r = peer.decode_payload(addr(1), cl::Packet::Version(cl::PROTOCOL_VERSION + 1), 0);
    assert_eq!(r.message, Some(Message::Error("Client is too old.".to_string())));
    assert!(r.outbound.is_empty());
}

#[test]
fn chunk_packets_and_chat_are_handed_on() {
    let (mut peer, _) = Peer::host("alice");
    let r = peer.decode_payload(addr(1), cl::Packet::ChunkPositions(vec![(1, 2), (3, 4)]), 0);
    assert_eq!(r.message, Some(Message::ChunkPositions(vec![(1, 2), (3, 4)])));
    let r = peer.decode_payload(addr(1), cl::Packet::GetChunks(vec![(1, 2)]), 0);
    assert_eq!(r.message, Some(Message::GetChunks(addr(1), vec![(1, 2)])));
    let r = peer.decode_payload(addr(1), cl::Packet::Chunks(vec![((1, 2), vec![9, 9])]), 0);
    assert_eq!(r.message, Some(Message::Chunks(vec![((1, 2), vec![9, 9])])));
    let r = peer.decode_payload(addr(1), cl::Packet::WHDChatMessage("hey".to_string()), 0);
    assert_eq!(r.message, Some(Message::WHDChatMessage("hey".to_string())));
    let r = peer.decode_payload(addr(1), cl::Packet::Reserved, 0);
    assert_eq!(r.message, None);
    assert!(r.outbound.is_empty());
}

#[test]
fn departure_is_reported_for_a_registered_mate() {
    let (mut peer, _) = Peer::host("alice");
    peer.decode_payload(addr(2), cl::Packet::Hello("bob".to_string()), 0);
    let r = peer.next_packet(mm::Packet::Disconnected(addr(3)), None, 0);
    assert_eq!(r.message, None);
    assert_eq!(peer.mates().len(), 1);
    let r = peer.next_packet(mm::Packet::Disconnected(addr(2)), None, 0);
    assert_eq!(r.message, Some(Message::Left("bob".to_string())));
    assert!(r.outbound.is_empty());
    assert_eq!(peer.mates().len(), 0);
    assert!(!peer.mates().contains_key(addr(2)));
}

#[test]
fn packets_that_a_peer_sends() {
    let (mut peer, _) = Peer::join("bob", 1);
    assert_eq!(
        peer.send_cursor(Point { x: 80, y: -8 }, 9),
        Outbound::Relay(None, cl::Packet::Cursor(80, -8, 9))
    );
    let stroke = vec![
        StrokePoint {
            point: Point { x: 1, y: 2 },
            brush: Brush::Draw { color: 0x8012_3456, stroke_width: 8 },
        },
        StrokePoint { point: Point { x: 3, y: 4 }, brush: Brush::Erase { stroke_width: 3 } },
    ];
    assert_eq!(
        peer.send_stroke(&stroke),
        Outbound::Relay(
            None,
            cl::Packet::Stroke(vec![
                cl::StrokePoint { x: 1, y: 2, color: 0x8012_3456, brush_size: 8 },
                cl::StrokePoint { x: 3, y: 4, color: 0, brush_size: 3 },
            ])
        )
    );
    assert_eq!(
        peer.send_chunk_positions(addr(4), vec![(0, 0), (-1, 5)]),
        Outbound::Relay(Some(addr(4)), cl::Packet::ChunkPositions(vec![(0, 0), (-1, 5)]))
    );
    assert_eq!(
        peer.send_chunks(addr(4), vec![((0, 0), vec![1, 2, 3])]),
        Outbound::Relay(Some(addr(4)), cl::Packet::Chunks(vec![((0, 0), vec![1, 2, 3])]))
    );
    peer.next_packet(mm::Packet::HostAddress(addr(1)), None, 0);
    assert_eq!(
        peer.download_chunks(vec![(7, 7)]),
        Outbound::Relay(Some(addr(1)), cl::Packet::GetChunks(vec![(7, 7)]))
    );
}

#[test]
fn stroke_points_on_the_wire() {
    let draw = StrokePoint {
        point: Point { x: -3, y: 9 },
        brush: Brush::Draw { color: 0xff11_2233, stroke_width: 5 },
    };
    let erase = StrokePoint { point: Point { x: 1, y: 1 }, brush: Brush::Erase { stroke_width: 7 } };
    assert_eq!(from_wire(to_wire(draw)), draw);
    assert_eq!(from_wire(to_wire(erase)), erase);
    assert_eq!(to_wire(erase).color, 0);
    // a transparent black brush cannot be told from the eraser
    let clear = StrokePoint {
        point: Point { x: 1, y: 1 },
        brush: Brush::Draw { color: 0, stroke_width: 7 },
    };
    assert_eq!(from_wire(to_wire(clear)), erase);
    assert_eq!(pack_argb(0xff, 0x11, 0x22, 0x33), 0xff11_2233);
    assert_eq!(pack_argb(0, 0, 0, 0), 0);
    assert_eq!(pack_argb(255, 255, 255, 255), u32::MAX);
    assert_eq!(pack_argb(1, 0, 0, 0), 0x0100_0000);
}

#[test]
fn prefix_test() {
    assert!(has_prefix("[tWHD!] bob", "[tWHD!"));
    assert!(has_prefix("[tWHD!", "[tWHD!"));
    assert!(has_prefix("anything", ""));
    assert!(!has_prefix("[tWH", "[tWHD!"));
    assert!(!has_prefix("bob [tWHD!]", "[tWHD!"));
    assert!(!has_prefix("", "[tWHD!"));
    assert!(has_prefix("\u{e9}t\u{e9}", "\u{e9}t"));
}

#[test]
fn chat_goes_to_tagged_mates_only() {
    let (mut peer, _) = Peer::host("alice");
    peer.decode_payload(addr(2), cl::Packet::Hello("[tWHD!] bob".to_string()), 0);
    peer.decode_payload(addr(3), cl::Packet::Hello("carol".to_string()), 0);
    peer.decode_payload(addr(4), cl::Packet::HiThere("[tWHD!] dave".to_string()), 0);
    let out = peer.whd_send_chat_message(&"hi all".to_string());
    assert_eq!(
        out,
        vec![
            Outbound::Relay(Some(addr(2)), cl::Packet::WHDChatMessage("hi all".to_string())),
            Outbound::Relay(Some(addr(4)), cl::Packet::WHDChatMessage("hi all".to_string())),
        ]
    );
    // a mate that introduces itself anew keeps its place
    peer.decode_payload(addr(2), cl::Packet::Hello("bob".to_string()), 0);
    peer.decode_payload(addr(3), cl::Packet::Hello("[tWHD!] carol".to_string()), 0);
    let out = peer.whd_send_chat_message(&"again".to_string());
    assert_eq!(
        out,
        vec![
            Outbound::Relay(Some(addr(3)), cl::Packet::WHDChatMessage("again".to_string())),
            Outbound::Relay(Some(addr(4)), cl::Packet::WHDChatMessage("again".to_string())),
        ]
    );
    let (lonely, _) = Peer::host("alice");
    assert!(lonely.whd_send_chat_message(&"anyone?".to_string()).is_empty());
}

#[test]
fn tick_drains_everything_in_order() {
    let (mut peer, _) = Peer::host("alice");
    let received = vec![
        (mm::Packet::RoomId(5), None),
        (mm::Packet::ClientAddress(addr(2)), None),
        (mm::Packet::Relayed(addr(1), vec![]), None),
        (mm::Packet::Relayed(addr(2), vec![1]), Some(cl::Packet::Hello("bob".to_string()))),
        (mm::Packet::Relayed(addr(2), vec![1]), Some(cl::Packet::Cursor(8, 8, 2))),
        (mm::Packet::Relayed(addr(2), vec![1]), None),
        (mm::Packet::Relayed(addr(2), vec![1]), Some(cl::Packet::GetChunks(vec![(0, 0)]))),
        (mm::Packet::Disconnected(addr(2)), None),
    ];
    let r = peer.tick(received, 99);
    assert_eq!(
        r.messages,
        vec![
            Message::Connected,
            Message::Joined("bob".to_string(), Some(addr(2))),
            Message::GetChunks(addr(2), vec![(0, 0)]),
            Message::Left("bob".to_string()),
        ]
    );
    assert_eq!(
        r.outbound,
        vec![
            Outbound::Matchmaker(mm::Packet::RequestRelay(None)),
            hello("[tWHD!] alice"),
            hello("[tWHD!] alice"),
            Outbound::Relay(Some(addr(2)), cl::Packet::HiThere("[tWHD!] alice".to_string())),
            Outbound::Relay(Some(addr(2)), cl::Packet::Version(cl::PROTOCOL_VERSION)),
        ]
    );
    assert_eq!(peer.room_id(), Some(5));
    assert_eq!(peer.mates().len(), 0);

    let r = peer.tick(vec![], 100);
    assert!(r.messages.is_empty());
    assert!(r.outbound.is_empty());
}
