use netcanv::address::Address;
use netcanv::chunk_set::{from_positions, position_key, ChunkSet};
use netcanv::net::peer::{Message, Outbound, Peer};
use netcanv::net::session::{
    batches, chunk_answers, send_chunk_answers, Session, Want, BATCH_SIZE,
};
use netcanv::protocol::client as cl;

fn grid(n: i32) -> Vec<(i32, i32)> {
    (0..n).map(|i| (i % 10 - 5, i / 10)).collect()
}

fn chunks(positions: &[(i32, i32)]) -> Message {
    Message::Chunks(positions.iter().map(|p| (*p, vec![1, 2, 3])).collect())
}

#[test]
fn chunk_set_basics() {
    let mut set = ChunkSet::new();
    assert_eq!(set.len(), 0);
    assert!(!set.contains((0, 0)));
    assert!(set.insert((0, 0)));
    assert!(set.insert((0, -1)));
    assert!(!set.insert((0, 0)));
    assert_eq!(set.len(), 2);
    assert!(set.contains((0, -1)));
    assert!(!set.contains((-1, 0)));
    assert_eq!(set.get(0), (0, 0));
    assert_eq!(set.get(1), (0, -1));

    let other = from_positions(&vec![(0, -1), (5, 5), (0, -1)]);
    assert_eq!(other.len(), 2);
    set.retain_in(&other);
    assert_eq!(set.len(), 1);
    assert!(set.contains((0, -1)));
    assert!(!set.contains((0, 0)));

    let mut other = other;
    assert_eq!(other.drain(), vec![(0, -1), (5, 5)]);
    assert_eq!(other.len(), 0);
}

#[test]
fn position_keys_differ() {
    assert_eq!(position_key((i32::MIN, i32::MIN)), 0);
    assert_eq!(position_key((i32::MIN, i32::MAX)), 0xffff_ffff);
    assert_eq!(position_key((0, 0)), 0x8000_0000_8000_0000);
    assert_eq!(position_key((i32::MAX, i32::MAX)), u64::MAX);
    assert_eq!(position_key((-1, 0)), 0x7fff_ffff_8000_0000);
    assert_eq!(position_key((0, -1)), 0x8000_0000_7fff_ffff);
    let mut set = ChunkSet::new();
    for pos in [(0, -1), (-1, 0), (i32::MIN, i32::MAX), (i32::MAX, i32::MIN), (1, 1)] {
        assert!(set.insert(pos));
    }
    for pos in [(0, -1), (-1, 0), (i32::MIN, i32::MAX), (i32::MAX, i32::MIN), (1, 1)] {
        assert!(set.contains(pos));
        assert!(!set.insert(pos));
    }
    assert!(!set.contains((-1, -1)));
    assert!(!set.contains((i32::MIN, i32::MIN)));
    assert_eq!(set.len(), 5);
}

#[test]
fn large_canvas() {
    let all: Vec<(i32, i32)> = (0..20_000).map(|i| (i % 200 - 100, i / 200 - 50)).collect();
    let mut s = Session::new();
    s.receive(Message::ChunkPositions(all.clone()));
    assert!(!s.update(&Want::Everything));
    let requests = s.take_requests();
    assert_eq!(requests.len(), 625);
    assert_eq!(requests.concat(), all);
    s.receive(chunks(&all));
    assert_eq!(s.counts(), (20_000, 20_000, 20_000, 0));
    assert!(s.update(&Want::Everything));
}

#[test]
fn batches_of_thirty_two() {
    assert_eq!(BATCH_SIZE, 32);
    assert!(batches(&vec![]).is_empty());
    assert_eq!(batches(&vec![(1, 1)]), vec![vec![(1, 1)]]);
    let exact = grid(32);
    assert_eq!(batches(&exact), vec![exact.clone()]);
    let more = grid(70);
    let split = batches(&more);
    assert_eq!(split.len(), 3);
    assert_eq!(split[0], more[0..32].to_vec());
    assert_eq!(split[1], more[32..64].to_vec());
    assert_eq!(split[2], more[64..70].to_vec());
    assert_eq!(batches(&grid(64)).len(), 2);
    assert_eq!(batches(&grid(65)).len(), 3);
}

#[test]
fn answers_hold_what_is_stored_batch_by_batch() {
    assert!(chunk_answers(&vec![], &vec![]).is_empty());
    let positions = grid(70);
    // every third chunk is missing, and so is the whole of the last batch
    let stored: Vec<Option<Vec<u8>>> = (0..70u8)
        .map(|i| if i % 3 == 0 || i >= 64 { None } else { Some(vec![i, i + 1]) })
        .collect();
    let answers = chunk_answers(&positions, &stored);
    assert_eq!(answers.len(), 3);
    for (k, answer) in answers.iter().enumerate() {
        let expected: Vec<((i32, i32), Vec<u8>)> = (32 * k..(32 * k + 32).min(70))
            .filter(|i| stored[*i].is_some())
            .map(|i| (positions[i], stored[i].clone().unwrap()))
            .collect();
        assert_eq!(answer, &expected);
    }
    assert_eq!(answers[0].len(), 21);
    assert_eq!(answers[0][0], ((-4, 0), vec![1, 2]));
    assert!(answers[2].is_empty());

    let one = chunk_answers(&vec![(5, 5)], &vec![Some(vec![])]);
    assert_eq!(one, vec![vec![((5, 5), vec![])]]);
    let none = chunk_answers(&vec![(5, 5)], &vec![None]);
    assert_eq!(none, vec![vec![]]);
}

#[test]
fn answers_go_to_the_one_who_asked() {
    let (peer, _) = Peer::host("alice");
    let to = Address::v4(3, 3, 3, 3, 3);
    let positions = grid(33);
    let stored: Vec<Option<Vec<u8>>> = (0..33u8).map(|i| Some(vec![i])).collect();
    let out = send_chunk_answers(&peer, to, &positions, &stored);
    let first: Vec<((i32, i32), Vec<u8>)> =
        (0..32).map(|i| (positions[i], vec![i as u8])).collect();
    assert_eq!(
        out,
        vec![
            Outbound::Relay(Some(to), cl::Packet::Chunks(first)),
            Outbound::Relay(Some(to), cl::Packet::Chunks(vec![(positions[32], vec![32])])),
        ]
    );
    assert!(send_chunk_answers(&peer, to, &vec![], &vec![]).is_empty());
}

#[test]
fn empty_session() {
    let mut s = Session::new();
    assert_eq!(s.counts(), (0, 0, 0, 0));
    assert!(s.replay().is_empty());
    assert!(s.take_requests().is_empty());
    // with nothing at the host, nothing is missing
    assert!(s.update(&Want::Everything));
    assert!(!s.update(&Want::Visible(vec![(0, 0)])));
    assert_eq!(s.counts(), (0, 0, 0, 0));
}

#[test]
fn saving_fetches_every_chunk_of_the_host() {
    let n = 70;
    let all = grid(n);
    let mut s = Session::new();
    let back = s.receive(Message::ChunkPositions(all.clone()));
    assert_eq!(back, Some(Message::ChunkPositions(all.clone())));
    assert_eq!(s.counts(), (70, 0, 0, 0));

    assert!(!s.update(&Want::Everything));
    assert_eq!(s.counts(), (70, 0, 0, 70));

    let requests = s.take_requests();
    assert_eq!(requests.concat(), all);
    assert_eq!(requests.iter().map(|b| b.len()).collect::<Vec<_>>(), vec![32, 32, 6]);
    assert_eq!(s.counts(), (70, 70, 0, 0));
    assert!(s.take_requests().is_empty());

    // all asked for, not all there yet
    assert!(!s.update(&Want::Everything));
    assert_eq!(s.counts(), (70, 70, 0, 0));

    s.receive(chunks(&all[0..32]));
    assert_eq!(s.counts(), (70, 70, 32, 0));
    assert!(!s.update(&Want::Everything));
    // a chunk that comes twice counts once
    s.receive(chunks(&all[16..64]));
    assert_eq!(s.counts(), (70, 70, 64, 0));
    assert!(!s.update(&Want::Everything));
    s.receive(chunks(&all[64..70]));
    assert_eq!(s.counts(), (70, 70, 70, 0));
    assert!(s.update(&Want::Everything));
    // more of the same changes nothing
    s.receive(chunks(&all));
    assert_eq!(s.counts(), (70, 70, 70, 0));
}

#[test]
fn chunk_that_was_not_asked_for_does_not_count() {
    let mut s = Session::new();
    s.receive(Message::ChunkPositions(vec![(0, 0), (1, 0)]));
    let back = s.receive(chunks(&[(0, 0), (9, 9)]));
    assert_eq!(back, Some(chunks(&[(0, 0), (9, 9)])));
    assert_eq!(s.counts(), (2, 0, 0, 0));
}

#[test]
fn chunks_in_view_are_fetched() {
    let mut s = Session::new();
    s.receive(Message::ChunkPositions(vec![(0, 0), (1, 0), (2, 0), (1, 0)]));
    assert_eq!(s.counts(), (3, 0, 0, 0));
    // in view: one that the host lacks, two that it has, one of them twice
    assert!(!s.update(&Want::Visible(vec![(5, 5), (1, 0), (0, 0), (1, 0)])));
    assert_eq!(s.counts(), (3, 0, 0, 2));
    assert_eq!(s.take_requests(), vec![vec![(1, 0), (0, 0)]]);
    assert_eq!(s.counts(), (3, 2, 0, 0));
    // what was asked for is not asked for again
    assert!(!s.update(&Want::Visible(vec![(1, 0), (2, 0)])));
    assert_eq!(s.counts(), (3, 2, 0, 1));
    assert_eq!(s.take_requests(), vec![vec![(2, 0)]]);
    assert_eq!(s.counts(), (3, 3, 0, 0));
    assert!(!s.update(&Want::Visible(vec![(1, 0), (2, 0)])));
    assert!(s.take_requests().is_empty());
}

#[test]
fn new_positions_of_the_host_drop_what_is_gone() {
    let mut s = Session::new();
    s.receive(Message::ChunkPositions(vec![(0, 0), (1, 0), (2, 0)]));
    s.update(&Want::Visible(vec![(0, 0), (1, 0)]));
    s.take_requests();
    s.receive(chunks(&[(0, 0)]));
    s.update(&Want::Visible(vec![(2, 0)]));
    assert_eq!(s.counts(), (3, 2, 1, 1));
    s.receive(Message::ChunkPositions(vec![(1, 0), (7, 7)]));
    assert_eq!(s.counts(), (2, 1, 0, 0));
    assert!(!s.update(&Want::Everything));
    assert_eq!(s.take_requests(), vec![vec![(7, 7)]]);
}

#[test]
fn arrival_and_requests_are_put_off() {
    let a = Address::v4(1, 1, 1, 1, 1);
    let b = Address::v4(2, 2, 2, 2, 2);
    let mut s = Session::new();
    assert_eq!(s.receive(Message::Joined("bob".to_string(), Some(a))), None);
    assert_eq!(
        s.receive(Message::Left("carol".to_string())),
        Some(Message::Left("carol".to_string()))
    );
    assert_eq!(s.receive(Message::GetChunks(b, vec![(1, 1)])), None);
    assert_eq!(s.receive(Message::Joined("dave".to_string(), None)), None);
    assert_eq!(s.receive(Message::Connected), Some(Message::Connected));
    assert_eq!(
        s.receive(Message::Error("x".to_string())),
        Some(Message::Error("x".to_string()))
    );
    assert_eq!(s.receive(Message::Stroke(vec![])), Some(Message::Stroke(vec![])));
    assert_eq!(
        s.receive(Message::WHDChatMessage("x".to_string())),
        Some(Message::WHDChatMessage("x".to_string()))
    );
    assert_eq!(
        s.replay(),
        vec![
            Message::Joined("bob".to_string(), Some(a)),
            Message::GetChunks(b, vec![(1, 1)]),
            Message::Joined("dave".to_string(), None),
        ]
    );
    assert!(s.replay().is_empty());
    assert_eq!(s.counts(), (0, 0, 0, 0));
}
