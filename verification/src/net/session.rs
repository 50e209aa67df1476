//! What a participant keeps of a session besides its peer: which chunks of
//! the canvas it still has to fetch from the host, and the messages that it
//! has put off to the end of the tick.
//!
//! The synchronisation of the canvas follows the host. The host tells a new
//! participant at which positions it has chunks. The participant asks for
//! those that it needs, in batches, and the host answers with the chunks.
//!
//! A chunk is first needed, then requested, then downloaded. It never goes
//! back as long as the host does not tell anew what it has. When the host
//! does, the session forgets what it held about the positions at which the
//! host has no chunk any more, so that only what the host has is ever asked
//! for or counted; what it held about the other positions stays.

use crate::address::Address;
use crate::chunk_set::{from_positions, lemma_to_set_push, ChunkSet};
use crate::net::peer::{outbound_views, relay, Message, MessageView, Outbound, OutboundView, Peer};
use crate::protocol::client::ChunkPosition;
use std::collections::VecDeque;
use vstd::prelude::*;

verus! {

/// The number of chunks in one request and in one answer, at most.
pub const BATCH_SIZE: usize = 32;

/// The number of batches that `n` positions are split into.
pub open spec fn batch_count(n: int) -> int {
    (n + BATCH_SIZE - 1) / (BATCH_SIZE as int)
}

/// The batch `k` of the positions `positions`: the next [`BATCH_SIZE`]
/// positions after those of the batches before it, or as many as are left.
pub open spec fn batch(positions: Seq<ChunkPosition>, k: int) -> Seq<ChunkPosition> {
    positions.subrange(
        k * BATCH_SIZE,
        if (k + 1) * BATCH_SIZE <= positions.len() {
            (k + 1) * BATCH_SIZE
        } else {
            positions.len() as int
        },
    )
}

/// Splits `positions` into batches of [`BATCH_SIZE`] positions; the last
/// batch may be shorter. No batch is empty, and the batches together are
/// `positions`.
pub fn batches(positions: &Vec<ChunkPosition>) -> (r: Vec<Vec<ChunkPosition>>)
    ensures
        r@.len() == batch_count(positions@.len() as int),
        forall|k: int| 0 <= k < r@.len() ==> (#[trigger] r@[k])@ == batch(positions@, k),
        forall|k: int| 0 <= k < r@.len() ==> 0 < (#[trigger] r@[k])@.len() <= BATCH_SIZE,
{
    let mut r: Vec<Vec<ChunkPosition>> = Vec::new();
    let mut current: Vec<ChunkPosition> = Vec::new();
    let n = positions.len();
    let mut i: usize = 0;
    while i < n
        invariant
            i <= n,
            n == positions@.len(),
            r@.len() == i / BATCH_SIZE,
            current@.len() == i % BATCH_SIZE,
            current@ == positions@.subrange(r@.len() * BATCH_SIZE, i as int),
            forall|k: int| 0 <= k < r@.len() ==> (#[trigger] r@[k])@ == batch(positions@, k),
            forall|k: int| 0 <= k < r@.len() ==> (#[trigger] r@[k])@.len() == BATCH_SIZE,
        decreases n - i,
    {
        let ghost start = r@.len() * BATCH_SIZE;
        current.push(positions[i]);
        assert(current@ =~= positions@.subrange(start, i + 1));
        i += 1;
        if current.len() == BATCH_SIZE {
            let mut full: Vec<ChunkPosition> = Vec::new();
            std::mem::swap(&mut current, &mut full);
            let ghost k = r@.len() as int;
            assert(full@ == batch(positions@, k));
            r.push(full);
            assert(current@ =~= positions@.subrange(r@.len() * BATCH_SIZE, i as int));
        }
    }
    if current.len() > 0 {
        let ghost k = r@.len() as int;
        assert(current@ == batch(positions@, k));
        r.push(current);
    }
    r
}

/// What is stored for the positions, as mathematical values: for each
/// position the data of its chunk, if there is a chunk.
pub open spec fn stored_view(stored: Seq<Option<Vec<u8>>>) -> Seq<Option<Seq<u8>>> {
    stored.map_values(
        |data: Option<Vec<u8>>|
            match data {
                Some(bytes) => Some(bytes@),
                None => None,
            },
    )
}

/// The chunks at the positions `positions` for which something is stored,
/// each with what is stored for it, in the order of the positions.
pub open spec fn present(positions: Seq<ChunkPosition>, stored: Seq<Option<Seq<u8>>>) -> Seq<
    (ChunkPosition, Seq<u8>),
>
    recommends
        positions.len() == stored.len(),
    decreases positions.len(),
{
    if positions.len() == 0 || stored.len() != positions.len() {
        Seq::empty()
    } else {
        let before = present(positions.drop_last(), stored.drop_last());
        match stored.last() {
            Some(data) => before.push((positions.last(), data)),
            None => before,
        }
    }
}

/// The answer to the batch `k` of a request for the chunks at `positions`:
/// the chunks of that batch for which something is stored.
pub open spec fn answer(
    positions: Seq<ChunkPosition>,
    stored: Seq<Option<Seq<u8>>>,
    k: int,
) -> Seq<(ChunkPosition, Seq<u8>)> {
    let to = if (k + 1) * BATCH_SIZE <= positions.len() {
        (k + 1) * BATCH_SIZE
    } else {
        positions.len() as int
    };
    present(positions.subrange(k * BATCH_SIZE, to), stored.subrange(k * BATCH_SIZE, to))
}

/// A copy of the bytes `data`.
fn copy_bytes(data: &Vec<u8>) -> (copy: Vec<u8>)
    ensures
        copy@ == data@,
{
    let mut copy: Vec<u8> = Vec::new();
    let mut i: usize = 0;
    while i < data.len()
        invariant
            i <= data@.len(),
            copy@ == data@.take(i as int),
        decreases data@.len() - i,
    {
        copy.push(data[i]);
        assert(copy@ =~= data@.take(i + 1));
        i += 1;
    }
    assert(data@.take(i as int) =~= data@);
    copy
}

/// Answers a request for the chunks at `positions`, where `stored` holds
/// for each of the positions the data of its chunk, if there is a chunk.
/// The positions are taken in batches of [`BATCH_SIZE`]; there is one
/// answer for each batch, in the order of the batches, and it holds the
/// chunks of the batch for which something is stored, in the order of the
/// positions. An answer is empty where nothing is stored for its batch.
pub fn chunk_answers(positions: &Vec<ChunkPosition>, stored: &Vec<Option<Vec<u8>>>) -> (r: Vec<
    Vec<(ChunkPosition, Vec<u8>)>,
>)
    requires
        stored@.len() == positions@.len(),
    ensures
        r@.len() == batch_count(positions@.len() as int),
        forall|k: int|
            0 <= k < r@.len() ==> crate::protocol::client::chunks_view((#[trigger] r@[k])@)
                == answer(positions@, stored_view(stored@), k),
{
    let ghost held = stored_view(stored@);
    let mut r: Vec<Vec<(ChunkPosition, Vec<u8>)>> = Vec::new();
    let mut current: Vec<(ChunkPosition, Vec<u8>)> = Vec::new();
    let n = positions.len();
    let mut taken: usize = 0;
    let mut i: usize = 0;
    proof {
        assert(positions@.subrange(0, 0) =~= Seq::<ChunkPosition>::empty());
        assert(crate::protocol::client::chunks_view(current@) =~= Seq::empty());
    }
    while i < n
        invariant
            i <= n,
            n == positions@.len(),
            n == stored@.len(),
            held == stored_view(stored@),
            r@.len() == i / BATCH_SIZE,
            taken == i % BATCH_SIZE,
            crate::protocol::client::chunks_view(current@) == present(
                positions@.subrange(r@.len() * BATCH_SIZE, i as int),
                held.subrange(r@.len() * BATCH_SIZE, i as int),
            ),
            forall|k: int|
                0 <= k < r@.len() ==> crate::protocol::client::chunks_view((#[trigger] r@[k])@)
                    == answer(positions@, held, k),
        decreases n - i,
    {
        let ghost start = r@.len() * BATCH_SIZE;
        let ghost before = crate::protocol::client::chunks_view(current@);
        proof {
            let p = positions@.subrange(start, i + 1);
            let h = held.subrange(start, i + 1);
            assert(p.drop_last() =~= positions@.subrange(start, i as int));
            assert(h.drop_last() =~= held.subrange(start, i as int));
            assert(p.last() == positions@[i as int]);
            assert(h.last() == held[i as int]);
        }
        match &stored[i] {
            Some(data) => {
                current.push((positions[i], copy_bytes(data)));
                assert(crate::protocol::client::chunks_view(current@) =~= before.push(
                    (positions@[i as int], data@),
                ));
            },
            None => {},
        }
        i += 1;
        taken += 1;
        if taken == BATCH_SIZE {
            let mut full: Vec<(ChunkPosition, Vec<u8>)> = Vec::new();
            std::mem::swap(&mut current, &mut full);
            r.push(full);
            taken = 0;
            proof {
                assert(positions@.subrange(r@.len() * BATCH_SIZE, i as int) =~= Seq::<
                    ChunkPosition,
                >::empty());
                assert(crate::protocol::client::chunks_view(current@) =~= Seq::empty());
            }
        }
    }
    if taken > 0 {
        r.push(current);
    }
    r
}

/// The packets that answer a request of the participant at `to` for the
/// chunks at `positions`: one packet of chunks for each batch of the
/// positions, in the order of the batches.
pub open spec fn answer_packets(
    to: Address,
    positions: Seq<ChunkPosition>,
    stored: Seq<Option<Seq<u8>>>,
) -> Seq<OutboundView> {
    Seq::new(
        batch_count(positions.len() as int) as nat,
        |k: int| relay(Some(to), crate::protocol::client::PacketView::Chunks(answer(positions, stored, k))),
    )
}

/// The packets by which `peer` answers a request of the participant at `to`
/// for the chunks at `positions`, where `stored` holds for each of the
/// positions the data of its chunk, if there is a chunk. No chunk at
/// another position is sent.
pub fn send_chunk_answers(
    peer: &Peer,
    to: Address,
    positions: &Vec<ChunkPosition>,
    stored: &Vec<Option<Vec<u8>>>,
) -> (out: Vec<Outbound>)
    requires
        stored@.len() == positions@.len(),
    ensures
        outbound_views(out@) == answer_packets(to, positions@, stored_view(stored@)),
{
    let answers = chunk_answers(positions, stored);
    let ghost all = answers@;
    let ghost expected = answer_packets(to, positions@, stored_view(stored@));
    let mut out: Vec<Outbound> = Vec::new();
    assert(batch_count(positions@.len() as int) >= 0);
    assert(outbound_views(out@) =~= expected.take(0));
    for chunks in it: answers
        invariant
            it.seq() == all,
            all.len() == expected.len(),
            expected == answer_packets(to, positions@, stored_view(stored@)),
            forall|k: int|
                0 <= k < all.len() ==> crate::protocol::client::chunks_view((#[trigger] all[k])@)
                    == answer(positions@, stored_view(stored@), k),
            outbound_views(out@) == expected.take(it.index() as int),
    {
        let ghost k = it.index() as int;
        let ghost before = outbound_views(out@);
        assert(chunks == all[k]);
        out.push(peer.send_chunks(to, chunks));
        assert(outbound_views(out@) =~= before.push(expected[k]));
        assert(expected.take(k + 1) =~= expected.take(k).push(expected[k]));
    }
    assert(expected.take(expected.len() as int) =~= expected);
    out
}

/// The positions of the chunks `chunks`.
pub open spec fn positions_of(chunks: Seq<(ChunkPosition, Seq<u8>)>) -> Set<ChunkPosition> {
    chunks.map_values(|chunk: (ChunkPosition, Seq<u8>)| chunk.0).to_set()
}

/// A session as a mathematical value.
#[verifier::ext_equal]
pub struct SessionView {
    /// The positions at which the host has chunks.
    pub server_side: Set<ChunkPosition>,
    /// The positions that were asked for.
    pub requested: Set<ChunkPosition>,
    /// The positions whose chunks have arrived.
    pub downloaded: Set<ChunkPosition>,
    /// The positions that are to be asked for next.
    pub needed: Set<ChunkPosition>,
    /// The messages that were put off, oldest first.
    pub deferred: Seq<MessageView>,
}

impl SessionView {
    /// The session at its start.
    pub open spec fn fresh() -> SessionView {
        SessionView {
            server_side: Set::empty(),
            requested: Set::empty(),
            downloaded: Set::empty(),
            needed: Set::empty(),
            deferred: Seq::empty(),
        }
    }

    /// The invariant of the session. Only what the host has is asked for,
    /// only what was asked for counts as downloaded, and what is to be asked
    /// for next is at the host and was not asked for before.
    pub open spec fn wf(self) -> bool {
        &&& self.server_side.finite()
        &&& self.requested.subset_of(self.server_side)
        &&& self.downloaded.subset_of(self.requested)
        &&& self.needed.subset_of(self.server_side)
        &&& self.needed.disjoint(self.requested)
    }

    /// The host tells at which positions it has chunks. What the session
    /// holds about other positions is dropped.
    pub open spec fn advertise(self, positions: Set<ChunkPosition>) -> SessionView {
        SessionView {
            server_side: positions,
            requested: self.requested.intersect(positions),
            downloaded: self.downloaded.intersect(positions),
            needed: self.needed.intersect(positions),
            ..self
        }
    }

    /// Every chunk of the host that was not asked for yet is needed.
    pub open spec fn want_all(self) -> SessionView {
        SessionView {
            needed: self.needed.union(self.server_side.difference(self.requested)),
            ..self
        }
    }

    /// Of the positions `visible`, those at which the host has a chunk that
    /// was not asked for yet are needed.
    pub open spec fn want_visible(self, visible: Set<ChunkPosition>) -> SessionView {
        SessionView {
            needed: self.needed.union(
                visible.intersect(self.server_side).difference(self.requested),
            ),
            ..self
        }
    }

    /// What is needed is asked for.
    pub open spec fn request(self) -> SessionView {
        SessionView {
            requested: self.requested.union(self.needed),
            needed: Set::empty(),
            ..self
        }
    }

    /// Chunks have arrived at `positions`. Those that were asked for count
    /// as downloaded.
    pub open spec fn receive_chunks(self, positions: Set<ChunkPosition>) -> SessionView {
        SessionView {
            downloaded: self.downloaded.union(positions.intersect(self.requested)),
            ..self
        }
    }

    /// Whether the canvas is synchronised: every chunk of the host was
    /// asked for and has arrived.
    pub open spec fn synchronized(self) -> bool {
        self.requested == self.server_side && self.downloaded == self.server_side
    }

    /// Whether the message is put off to the end of the tick: the arrival of
    /// a participant, and a request for chunks.
    pub open spec fn puts_off(message: MessageView) -> bool {
        message is Joined || message is GetChunks
    }

    /// The session after the message `message` of the peer. The positions
    /// of the host's chunks and the arrival of chunks are noted; a message
    /// that is put off joins the queue.
    pub open spec fn after_message(self, message: MessageView) -> SessionView {
        match message {
            MessageView::ChunkPositions(positions) => self.advertise(positions.to_set()),
            MessageView::Chunks(chunks) => self.receive_chunks(positions_of(chunks)),
            MessageView::Joined(..) => SessionView {
                deferred: self.deferred.push(message),
                ..self
            },
            MessageView::GetChunks(..) => SessionView {
                deferred: self.deferred.push(message),
                ..self
            },
            _ => self,
        }
    }
}

/// What the application wants of the canvas in one tick.
pub enum Want {
    /// All of it, to save it to a file.
    Everything,
    /// The chunks at the given positions, which are in view.
    Visible(Vec<ChunkPosition>),
}

/// The state of a session besides its peer.
pub struct Session {
    server_side_chunks: ChunkSet,
    requested_chunks: ChunkSet,
    downloaded_chunks: ChunkSet,
    needed_chunks: ChunkSet,
    deferred_message_queue: VecDeque<Message>,
}

impl View for Session {
    type V = SessionView;

    closed spec fn view(&self) -> SessionView {
        SessionView {
            server_side: self.server_side_chunks@,
            requested: self.requested_chunks@,
            downloaded: self.downloaded_chunks@,
            needed: self.needed_chunks@,
            deferred: self.deferred_message_queue@.map_values(|m: Message| m@),
        }
    }
}

impl Session {
    /// The invariant of the representation.
    pub closed spec fn inv(&self) -> bool {
        &&& self.server_side_chunks.wf()
        &&& self.requested_chunks.wf()
        &&& self.downloaded_chunks.wf()
        &&& self.needed_chunks.wf()
    }

    /// The invariant of the session: that of the representation and that of
    /// the value which it stands for.
    pub open spec fn wf(&self) -> bool {
        self.inv() && self@.wf()
    }

    /// The positions that are to be asked for next, in the order in which
    /// they became needed.
    pub closed spec fn needed_order(&self) -> Seq<ChunkPosition> {
        self.needed_chunks.order()
    }

    /// The order of the needed positions lists each of them once.
    pub proof fn lemma_needed_order(&self)
        requires
            self.wf(),
        ensures
            self.needed_order().no_duplicates(),
            self.needed_order().to_set() == self@.needed,
            self@.needed.len() == self.needed_order().len(),
    {
        self.needed_chunks.lemma_order();
    }

    /// A session at its start.
    pub fn new() -> (s: Session)
        ensures
            s.wf(),
            s@ == SessionView::fresh(),
    {
        let s = Session {
            server_side_chunks: ChunkSet::new(),
            requested_chunks: ChunkSet::new(),
            downloaded_chunks: ChunkSet::new(),
            needed_chunks: ChunkSet::new(),
            deferred_message_queue: VecDeque::new(),
        };
        assert(s@ =~= SessionView::fresh());
        s
    }

    /// How many chunks the host has, how many were asked for, how many have
    /// arrived, and how many are to be asked for next.
    pub fn counts(&self) -> (r: (usize, usize, usize, usize))
        requires
            self.wf(),
        ensures
            r.0 == self@.server_side.len(),
            r.1 == self@.requested.len(),
            r.2 == self@.downloaded.len(),
            r.3 == self@.needed.len(),
    {
        (
            self.server_side_chunks.len(),
            self.requested_chunks.len(),
            self.downloaded_chunks.len(),
            self.needed_chunks.len(),
        )
    }

    /// Notes the positions at which the host has chunks.
    fn advertise(&mut self, positions: &Vec<ChunkPosition>)
        requires
            old(self).wf(),
        ensures
            final(self).wf(),
            final(self)@ == old(self)@.advertise(positions@.to_set()),
    {
        let server = from_positions(positions);
        self.requested_chunks.retain_in(&server);
        self.downloaded_chunks.retain_in(&server);
        self.needed_chunks.retain_in(&server);
        self.server_side_chunks = server;
        proof {
            self.server_side_chunks.lemma_order();
            assert(self@ =~= old(self)@.advertise(positions@.to_set()));
        }
    }

    /// Notes that chunks have arrived.
    fn receive_chunks(&mut self, chunks: &Vec<(ChunkPosition, Vec<u8>)>)
        requires
            old(self).wf(),
        ensures
            final(self).wf(),
            final(self)@ == old(self)@.receive_chunks(
                positions_of(crate::protocol::client::chunks_view(chunks@)),
            ),
    {
        let ghost all = crate::protocol::client::chunks_view(chunks@).map_values(
            |chunk: (ChunkPosition, Seq<u8>)| chunk.0,
        );
        let mut i: usize = 0;
        assert(all.take(0).to_set() =~= Set::<ChunkPosition>::empty());
        assert(self@ =~= old(self)@.receive_chunks(all.take(0).to_set()));
        while i < chunks.len()
            invariant
                i <= chunks@.len(),
                all.len() == chunks@.len(),
                forall|j: int| 0 <= j < all.len() ==> all[j] == (#[trigger] chunks@[j]).0,
                old(self).wf(),
                self.wf(),
                self@ == old(self)@.receive_chunks(all.take(i as int).to_set()),
            decreases chunks@.len() - i,
        {
            let pos = chunks[i].0;
            proof {
                assert(all.take(i + 1) =~= all.take(i as int).push(pos));
                lemma_to_set_push(all.take(i as int), pos);
            }
            if self.requested_chunks.contains(pos) {
                self.downloaded_chunks.insert(pos);
            }
            assert(self@ =~= old(self)@.receive_chunks(all.take(i + 1).to_set()));
            i += 1;
        }
        assert(all.take(i as int) =~= all);
    }

    /// Takes the message `message` of the peer. The positions of the host's
    /// chunks and the arrival of chunks are noted. The arrival of a
    /// participant and a request for chunks are put off to the end of the
    /// tick, and `None` is returned. Every other message is handed back for
    /// the application to act on at once.
    pub fn receive(&mut self, message: Message) -> (now: Option<Message>)
        requires
            old(self).wf(),
        ensures
            final(self).wf(),
            final(self)@ == old(self)@.after_message(message@),
            match now {
                Some(same) => !SessionView::puts_off(message@) && same == message,
                None => SessionView::puts_off(message@),
            },
    {
        match &message {
            Message::ChunkPositions(positions) => {
                self.advertise(positions);
                Some(message)
            },
            Message::Chunks(chunks) => {
                self.receive_chunks(chunks);
                Some(message)
            },
            Message::Joined(..) => {
                self.deferred_message_queue.push_back(message);
                assert(self@ =~= old(self)@.after_message(message@));
                None
            },
            Message::GetChunks(..) => {
                self.deferred_message_queue.push_back(message);
                assert(self@ =~= old(self)@.after_message(message@));
                None
            },
            _ => Some(message),
        }
    }

    /// Hands out the messages that were put off, oldest first, and leaves
    /// the queue empty.
    pub fn replay(&mut self) -> (messages: Vec<Message>)
        requires
            old(self).wf(),
        ensures
            final(self).wf(),
            messages@.map_values(|m: Message| m@) == old(self)@.deferred,
            final(self)@ == (SessionView { deferred: Seq::empty(), ..old(self)@ }),
    {
        let ghost queue = self.deferred_message_queue@;
        let ghost all = old(self)@.deferred;
        let mut messages: Vec<Message> = Vec::new();
        assert(messages@.map_values(|m: Message| m@) =~= all.take(0));
        while self.deferred_message_queue.len() > 0
            invariant
                self.inv(),
                all == queue.map_values(|m: Message| m@),
                messages@.len() + self.deferred_message_queue@.len() == queue.len(),
                self.deferred_message_queue@ == queue.skip(messages@.len() as int),
                messages@.map_values(|m: Message| m@) == all.take(messages@.len() as int),
                self@.server_side == old(self)@.server_side,
                self@.requested == old(self)@.requested,
                self@.downloaded == old(self)@.downloaded,
                self@.needed == old(self)@.needed,
            decreases self.deferred_message_queue@.len(),
        {
            let ghost done = messages@.len() as int;
            let ghost before = messages@.map_values(|m: Message| m@);
            match self.deferred_message_queue.pop_front() {
                Some(message) => {
                    assert(message == queue[done]);
                    messages.push(message);
                    assert(messages@.map_values(|m: Message| m@) =~= before.push(all[done]));
                    assert(all.take(done + 1) =~= all.take(done).push(all[done]));
                    assert(self.deferred_message_queue@ =~= queue.skip(done + 1));
                },
                None => {},
            }
        }
        assert(all.take(all.len() as int) =~= all);
        assert(self@ =~= (SessionView { deferred: Seq::empty(), ..old(self)@ }));
        messages
    }

    /// Works out what is needed of the canvas in this tick.
    ///
    /// To save the canvas, every chunk of the host that was not asked for is
    /// needed, as long as there is one; once all were asked for, the result
    /// says whether all have arrived, so that the canvas can be saved.
    /// Otherwise the chunks in view are needed, and the result is `false`.
    pub fn update(&mut self, want: &Want) -> (complete: bool)
        requires
            old(self).wf(),
        ensures
            final(self).wf(),
            match *want {
                Want::Everything => if old(self)@.requested.len() < old(self)@.server_side.len() {
                    final(self)@ == old(self)@.want_all() && !complete
                } else {
                    final(self)@ == old(self)@ && complete == old(self)@.synchronized()
                },
                Want::Visible(visible) => final(self)@ == old(self)@.want_visible(
                    visible@.to_set(),
                ) && !complete,
            },
    {
        match want {
            Want::Everything => {
                if self.requested_chunks.len() < self.server_side_chunks.len() {
                    let n = self.server_side_chunks.len();
                    let ghost server = self.server_side_chunks.order();
                    proof {
                        self.server_side_chunks.lemma_order();
                        assert(server.take(0).to_set() =~= Set::<ChunkPosition>::empty());
                        assert(self@ =~= old(self)@.want_visible(server.take(0).to_set()));
                    }
                    let mut i: usize = 0;
                    while i < n
                        invariant
                            i <= n,
                            n == server.len(),
                            server == self.server_side_chunks.order(),
                            server.to_set() == old(self)@.server_side,
                            old(self).wf(),
                            self.wf(),
                            self@ == old(self)@.want_visible(server.take(i as int).to_set()),
                        decreases n - i,
                    {
                        let pos = self.server_side_chunks.get(i);
                        proof {
                            assert(server.take(i + 1) =~= server.take(i as int).push(pos));
                            lemma_to_set_push(server.take(i as int), pos);
                        }
                        if !self.requested_chunks.contains(pos) {
                            self.needed_chunks.insert(pos);
                        }
                        assert(self@ =~= old(self)@.want_visible(server.take(i + 1).to_set()));
                        i += 1;
                    }
                    proof {
                        assert(server.take(i as int) =~= server);
                        assert(old(self)@.want_visible(old(self)@.server_side) =~= old(
                            self,
                        )@.want_all());
                    }
                    false
                } else {
                    proof {
                        lemma_full(self@);
                    }
                    self.downloaded_chunks.len() == self.server_side_chunks.len()
                }
            },
            Want::Visible(visible) => {
                let mut i: usize = 0;
                proof {
                    assert(visible@.take(0).to_set() =~= Set::<ChunkPosition>::empty());
                    assert(self@ =~= old(self)@.want_visible(visible@.take(0).to_set()));
                }
                while i < visible.len()
                    invariant
                        i <= visible@.len(),
                        old(self).wf(),
                        self.wf(),
                        self@ == old(self)@.want_visible(visible@.take(i as int).to_set()),
                    decreases visible@.len() - i,
                {
                    let pos = visible[i];
                    proof {
                        assert(visible@.take(i + 1) =~= visible@.take(i as int).push(pos));
                        lemma_to_set_push(visible@.take(i as int), pos);
                    }
                    if self.server_side_chunks.contains(pos) && !self.requested_chunks.contains(
                        pos,
                    ) {
                        self.needed_chunks.insert(pos);
                    }
                    assert(self@ =~= old(self)@.want_visible(visible@.take(i + 1).to_set()));
                    i += 1;
                }
                assert(visible@.take(i as int) =~= visible@);
                false
            },
        }
    }

    /// Marks what is needed as asked for, and returns it in batches of
    /// [`BATCH_SIZE`] positions, each of which is to be sent to the host as
    /// one request. Nothing is returned if nothing is needed.
    pub fn take_requests(&mut self) -> (r: Vec<Vec<ChunkPosition>>)
        requires
            old(self).wf(),
        ensures
            final(self).wf(),
            final(self)@ == old(self)@.request(),
            r@.len() == batch_count(old(self).needed_order().len() as int),
            forall|k: int|
                0 <= k < r@.len() ==> (#[trigger] r@[k])@ == batch(old(self).needed_order(), k),
            forall|k: int| 0 <= k < r@.len() ==> 0 < (#[trigger] r@[k])@.len() <= BATCH_SIZE,
    {
        let needed = self.needed_chunks.drain();
        proof {
            old(self).needed_chunks.lemma_order();
            assert(needed@.take(0).to_set() =~= Set::<ChunkPosition>::empty());
            assert(self.requested_chunks@ =~= old(self)@.requested.union(
                needed@.take(0).to_set(),
            ));
        }
        let mut i: usize = 0;
        while i < needed.len()
            invariant
                i <= needed@.len(),
                needed@.to_set() == old(self)@.needed,
                old(self).wf(),
                self.inv(),
                self@.server_side == old(self)@.server_side,
                self@.downloaded == old(self)@.downloaded,
                self@.deferred == old(self)@.deferred,
                self@.needed == Set::<ChunkPosition>::empty(),
                self@.requested == old(self)@.requested.union(needed@.take(i as int).to_set()),
            decreases needed@.len() - i,
        {
            let pos = needed[i];
            proof {
                assert(needed@.take(i + 1) =~= needed@.take(i as int).push(pos));
                lemma_to_set_push(needed@.take(i as int), pos);
            }
            self.requested_chunks.insert(pos);
            assert(self@.requested =~= old(self)@.requested.union(
                needed@.take(i + 1).to_set(),
            ));
            i += 1;
        }
        proof {
            assert(needed@.take(i as int) =~= needed@);
            assert(self@ =~= old(self)@.request());
        }
        batches(&needed)
    }
}

/// Once as many chunks were asked for as the host has, all of them were
/// asked for; and all have arrived once as many have arrived.
pub proof fn lemma_full(s: SessionView)
    requires
        s.wf(),
        s.requested.len() >= s.server_side.len(),
    ensures
        s.requested == s.server_side,
        s.downloaded.finite(),
        s.synchronized() <==> s.downloaded.len() == s.server_side.len(),
{
    vstd::set_lib::lemma_len_subset(s.requested, s.server_side);
    vstd::set_lib::lemma_subset_equality(s.requested, s.server_side);
    vstd::set_lib::lemma_len_subset(s.downloaded, s.server_side);
    if s.downloaded.len() == s.server_side.len() {
        vstd::set_lib::lemma_subset_equality(s.downloaded, s.server_side);
    }
}

/// Every step of a session keeps its invariant.
pub proof fn law_session_invariant(
    s: SessionView,
    positions: Set<ChunkPosition>,
    visible: Set<ChunkPosition>,
    arrived: Set<ChunkPosition>,
    message: MessageView,
)
    requires
        s.wf(),
        positions.finite(),
    ensures
        SessionView::fresh().wf(),
        s.advertise(positions).wf(),
        s.want_all().wf(),
        s.want_visible(visible).wf(),
        s.request().wf(),
        s.receive_chunks(arrived).wf(),
        s.after_message(message).wf(),
{
    match message {
        MessageView::ChunkPositions(p) => {
            vstd::seq_lib::seq_to_set_is_finite(p);
        },
        _ => {},
    }
}

/// No set of a session ever holds more positions than the host has chunks:
/// what is needed and what was asked for are apart and lie within what the
/// host has, and what has arrived lies within what was asked for.
pub proof fn law_sync_bounded(s: SessionView)
    requires
        s.wf(),
    ensures
        s.needed.finite() && s.requested.finite() && s.downloaded.finite(),
        s.needed.len() + s.requested.len() <= s.server_side.len(),
        s.downloaded.len() <= s.requested.len(),
{
    let both = s.needed.union(s.requested);
    vstd::set_lib::lemma_len_subset(s.needed, s.server_side);
    vstd::set_lib::lemma_len_subset(s.requested, s.server_side);
    vstd::set_lib::lemma_len_subset(s.downloaded, s.requested);
    vstd::set_lib::lemma_len_subset(both, s.server_side);
    vstd::set_lib::lemma_set_disjoint_lens(s.needed, s.requested);
    assert(s.needed + s.requested =~= both);
}

/// A chunk goes forward only: as long as the host does not tell anew what it
/// has, what was asked for stays asked for, and what has arrived stays
/// arrived.
pub proof fn law_sync_forward(
    s: SessionView,
    visible: Set<ChunkPosition>,
    arrived: Set<ChunkPosition>,
)
    ensures
        s.requested.subset_of(s.want_all().requested) && s.downloaded.subset_of(
            s.want_all().downloaded,
        ),
        s.requested.subset_of(s.want_visible(visible).requested) && s.downloaded.subset_of(
            s.want_visible(visible).downloaded,
        ),
        s.requested.subset_of(s.request().requested) && s.downloaded.subset_of(
            s.request().downloaded,
        ),
        s.needed.subset_of(s.request().requested),
        s.requested.subset_of(s.receive_chunks(arrived).requested) && s.downloaded.subset_of(
            s.receive_chunks(arrived).downloaded,
        ),
{
}

/// A participant that starts with nothing and is told of the chunks of the
/// host needs exactly these chunks, then asks for exactly these chunks, and
/// is synchronised when all of them have arrived. A session is synchronised
/// only if as many chunks have arrived as the host has.
pub proof fn law_sync_converges(positions: Set<ChunkPosition>)
    requires
        positions.finite(),
    ensures
        ({
            let told = SessionView::fresh().advertise(positions);
            let wanted = told.want_all();
            let asked = wanted.request();
            let done = asked.receive_chunks(positions);
            &&& told.needed.len() == 0 && told.requested.len() == 0 && told.downloaded.len() == 0
            &&& wanted.needed == positions
            &&& asked.requested == positions && asked.needed.len() == 0
            &&& asked.downloaded.len() == 0
            &&& positions.len() > 0 ==> !asked.synchronized()
            &&& done.downloaded == positions
            &&& done.synchronized()
        }),
        forall|s: SessionView|
            s.wf() && #[trigger] s.synchronized() ==> s.downloaded.len() == s.server_side.len()
                && s.requested.len() == s.server_side.len(),
{
    let told = SessionView::fresh().advertise(positions);
    let wanted = told.want_all();
    let asked = wanted.request();
    let done = asked.receive_chunks(positions);
    assert(told.needed =~= Set::empty());
    assert(told.requested =~= Set::empty());
    assert(told.downloaded =~= Set::empty());
    assert(wanted.needed =~= positions);
    assert(asked.requested =~= positions);
    assert(asked.downloaded =~= Set::empty());
    assert(done.downloaded =~= positions);
    if positions.len() > 0 {
        assert(asked.downloaded.len() == 0);
    }
}

} // verus!
