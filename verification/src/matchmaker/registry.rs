//! The executable registry of rooms.

use crate::address::Address;
use crate::address_index::AddressIndex;
use crate::address_map::without_values;
use crate::matchmaker::model::{
    is_open, takes_part, Connection, Error, Registry, RoomView, MAX_DRAWS, MAX_ROOM_ID,
};
use crate::matchmaker::model::{
    lemma_allocate_wf, lemma_bind_wf, lemma_connect_wf, lemma_disconnect_wf, lemma_prune_wf,
    lemma_vacate_wf,
};
use crate::matchmaker::laws::{law_broadcast, lemma_fanout_once, lemma_mourners_once};
use crate::protocol::matchmaker::{Packet, PacketView};
use crate::random::gen_range_inclusive;
use crate::seq_facts::{lemma_collect_step, lemma_filter_step, lemma_take_step_contains};
use std::collections::HashMap;
use vstd::prelude::*;

verus! {

broadcast use vstd::std_specs::hash::group_hash_axioms;

/// A room: its host, the relay clients bound to it, and its identifier.
///
/// A room is opened when a host obtains an identifier and ceases to exist
/// when the connection of its host is closed.
pub struct Room {
    host: Connection,
    clients: Vec<Connection>,
    id: u32,
}

impl View for Room {
    type V = RoomView;

    closed spec fn view(&self) -> RoomView {
        RoomView { host: self.host, clients: self.clients@, id: self.id }
    }
}

/// A packet and the connections that it is to be written to, in this order.
pub struct Outgoing {
    pub targets: Vec<Connection>,
    pub packet: Packet,
}

/// An [`Outgoing`] as a mathematical value.
pub struct OutgoingView {
    pub targets: Seq<Connection>,
    pub packet: PacketView,
}

impl View for Outgoing {
    type V = OutgoingView;

    open spec fn view(&self) -> OutgoingView {
        OutgoingView { targets: self.targets@, packet: self.packet@ }
    }
}

/// The test that a room identifier passes if the room is hosted from `addr`.
pub closed spec fn hosted_from(rooms: Map<u32, Room>, addr: Address) -> spec_fn(u32) -> bool {
    |id: u32| rooms[id].host.addr == addr
}

/// Whether `conn` is among the members `clients`.
fn is_member(clients: &Vec<Connection>, conn: Connection) -> (r: bool)
    ensures
        r == clients@.contains(conn),
{
    let mut i: usize = 0;
    while i < clients.len()
        invariant
            i <= clients@.len(),
            forall|j: int| 0 <= j < i ==> clients@[j] != conn,
        decreases clients@.len() - i,
    {
        if clients[i] == conn {
            return true;
        }
        i += 1;
    }
    false
}

/// The rooms of a hash map as mathematical values.
pub closed spec fn rooms_view(rooms: Map<u32, Room>) -> Map<u32, RoomView> {
    Map::new(|id: u32| rooms.contains_key(id), |id: u32| rooms[id]@)
}

/// The state of the broker: the open rooms, the hosts, the relay clients and
/// the open connections.
pub struct Matchmaker {
    /// The open rooms by their identifier.
    rooms: HashMap<u32, Room>,
    /// For the address of each host, the identifier of its room.
    host_rooms: AddressIndex<u32>,
    /// For the address of each relay client, the identifier of its room.
    relay_clients: AddressIndex<u32>,
    /// The open connections by their handle.
    connections: HashMap<u64, Address>,
    /// For the address of each open connection, its handle.
    addresses: AddressIndex<u64>,
    /// The handle that the next connection gets.
    next_handle: u64,
    /// The largest number of members that a room may list.
    member_limit: usize,
}

impl View for Matchmaker {
    type V = Registry;

    closed spec fn view(&self) -> Registry {
        Registry {
            rooms: rooms_view(self.rooms@),
            host_rooms: self.host_rooms@,
            relay_clients: self.relay_clients@,
            open: self.connections@,
            next_handle: self.next_handle,
            member_limit: self.member_limit,
        }
    }
}

impl Matchmaker {
    /// The invariant of the representation.
    pub closed spec fn inv(&self) -> bool {
        &&& self.host_rooms.wf()
        &&& self.relay_clients.wf()
        &&& self.addresses.wf()
        &&& forall|handle: u64| #[trigger]
            self.connections@.contains_key(handle) ==> {
                &&& self.addresses@.contains_key(self.connections@[handle])
                &&& self.addresses@[self.connections@[handle]] == handle
            }
        &&& forall|addr: Address| #[trigger]
            self.addresses@.contains_key(addr) ==> {
                &&& self.connections@.contains_key(self.addresses@[addr])
                &&& self.connections@[self.addresses@[addr]] == addr
            }
    }

    /// The invariant of the broker's state: that of the representation and
    /// that of the registry which it stands for.
    pub open spec fn wf(&self) -> bool {
        self.inv() && self@.wf()
    }

    /// Creates a broker without rooms and connections, whose rooms may list
    /// as many members as memory holds.
    pub fn new() -> (mm: Matchmaker)
        ensures
            mm.wf(),
            mm@ == Registry::empty(usize::MAX),
    {
        Matchmaker::with_member_limit(usize::MAX)
    }

    /// Creates a broker without rooms and connections, whose rooms may list
    /// `member_limit` members each.
    pub fn with_member_limit(member_limit: usize) -> (mm: Matchmaker)
        ensures
            mm.wf(),
            mm@ == Registry::empty(member_limit),
    {
        let mm = Matchmaker {
            rooms: HashMap::new(),
            host_rooms: AddressIndex::new(),
            relay_clients: AddressIndex::new(),
            connections: HashMap::new(),
            addresses: AddressIndex::new(),
            next_handle: 0,
            member_limit,
        };
        assert(mm@.rooms =~= Map::<u32, RoomView>::empty());
        assert(mm@ =~= Registry::empty(member_limit));
        mm
    }

    /// The largest number of members that a room may list.
    pub fn member_limit(&self) -> (limit: usize)
        ensures
            limit == self@.member_limit,
    {
        self.member_limit
    }

    /// Accepts a connection with the address `addr` and gives it a handle
    /// that no connection had before. Returns `None`, and changes nothing,
    /// once the handles have run out, and as long as a connection with the
    /// same address is open: an address stands for one connection at a time.
    pub fn connect(&mut self, addr: Address) -> (r: Option<Connection>)
        requires
            old(self).wf(),
        ensures
            final(self).wf(),
            match r {
                Some(conn) => {
                    &&& old(self)@.admits(addr)
                    &&& conn == Connection { handle: old(self)@.next_handle, addr }
                    &&& final(self)@ == old(self)@.connect(addr)
                    &&& !old(self)@.alive(conn)
                    &&& final(self)@.alive(conn)
                },
                None => !old(self)@.admits(addr) && final(self)@ == old(self)@,
            },
    {
        if self.next_handle == u64::MAX || self.address_is_open(addr) {
            return None;
        }
        proof {
            lemma_connect_wf(self@, addr);
        }
        let conn = Connection { handle: self.next_handle, addr };
        self.connections.insert(conn.handle, addr);
        self.addresses.insert(addr, conn.handle);
        self.next_handle = self.next_handle + 1;
        assert(self@ =~= old(self)@.connect(addr));
        Some(conn)
    }

    /// Whether the connection is open.
    pub fn is_connected(&self, conn: Connection) -> (r: bool)
        ensures
            r == self@.alive(conn),
    {
        match self.connections.get(&conn.handle) {
            Some(addr) => *addr == conn.addr,
            None => false,
        }
    }

    /// Whether a connection with the address `addr` is open.
    pub fn address_is_open(&self, addr: Address) -> (r: bool)
        requires
            self.wf(),
        ensures
            r == self@.address_is_open(addr),
    {
        let handle = self.addresses.get(addr);
        proof {
            if self@.address_is_open(addr) {
                let open = choose|open: u64| #[trigger]
                    self@.open.contains_key(open) && self@.open[open] == addr;
                assert(self.addresses@.contains_key(self.connections@[open]));
            }
            if handle is Some {
                assert(self.connections@.contains_key(self.addresses@[addr]));
            }
        }
        handle.is_some()
    }

    /// Whether no room has the identifier `id`.
    pub fn room_is_free(&self, id: u32) -> (r: bool)
        ensures
            r == !self@.rooms.contains_key(id),
    {
        !self.rooms.contains_key(&id)
    }

    /// The room hosted from `addr`, if there is one.
    pub fn hosted_room(&self, addr: Address) -> (r: Option<u32>)
        requires
            self.wf(),
        ensures
            match r {
                Some(id) => self@.host_rooms.contains_key(addr) && self@.host_rooms[addr] == id,
                None => !self@.host_rooms.contains_key(addr),
            },
    {
        self.host_rooms.get(addr)
    }

    /// The room to which the connection with the address `addr` is bound as
    /// a relay client, if there is one.
    pub fn relay_room(&self, addr: Address) -> (r: Option<u32>)
        requires
            self.wf(),
        ensures
            match r {
                Some(id) => self@.relay_clients.contains_key(addr) && self@.relay_clients[addr]
                    == id,
                None => !self@.relay_clients.contains_key(addr),
            },
    {
        self.relay_clients.get(addr)
    }

    /// Draws room identifiers at random, at most [`MAX_DRAWS`] times, and
    /// returns the first that no room has. Returns `None` if every draw hit
    /// an open room; the caller may try again later.
    ///
    /// Which identifier is returned depends on chance. An identifier is
    /// returned for certain where no identifier that can be drawn is taken,
    /// since then the first draw is free; none is returned for certain where
    /// all of them are taken.
    pub fn find_free_room_id(&self) -> (r: Option<u32>)
        ensures
            r matches Some(id) ==> id <= MAX_ROOM_ID && !self@.rooms.contains_key(id),
            self@.untaken() ==> r is Some,
            self@.exhausted() ==> r is None,
    {
        let mut rng = rand::thread_rng();
        let mut draws: u32 = 0;
        while draws < MAX_DRAWS
            invariant
                draws <= MAX_DRAWS,
                self@.untaken() ==> draws == 0,
            decreases MAX_DRAWS - draws,
        {
            let id = gen_range_inclusive(&mut rng, 0, MAX_ROOM_ID);
            if self.room_is_free(id) {
                return Some(id);
            }
            draws += 1;
        }
        None
    }

    /// Closes the rooms hosted from `addr`.
    fn vacate(&mut self, addr: Address)
        requires
            old(self).wf(),
        ensures
            final(self).wf(),
            final(self)@ == old(self)@.vacate(addr),
    {
        proof {
            lemma_vacate_wf(self@, addr);
        }
        if self.host_rooms.remove(addr).is_none() {
            return ;
        }
        let ghost before = self.rooms@;
        let ghost closed = old(self)@.hosted(addr);
        let ghost clients = self.relay_clients@;
        let ghost wanted = hosted_from(before, addr);
        let mut doomed: Vec<u32> = Vec::new();
        for id in it: self.rooms.keys()
            invariant
                self.rooms@ == before,
                wanted == hosted_from(before, addr),
                it.seq().unref().to_set() == before.dom(),
                doomed@ == it.seq().unref().take(it.index()).filter(wanted),
                it.index() == it.seq().len() ==> forall|k: u32| #[trigger]
                    doomed@.contains(k) <==> before.contains_key(k) && wanted(k),
        {
            proof {
                lemma_collect_step(it.seq().unref(), it.index(), wanted, before.dom());
            }
            let hosted = match self.rooms.get(id) {
                Some(room) => room.host.addr == addr,
                None => false,
            };
            if hosted {
                doomed.push(*id);
            }
        }
        assert forall|k: u32| #[trigger] doomed@.contains(k) <==> closed.contains(k) by {
            if before.contains_key(k) {
                assert(rooms_view(before)[k] == before[k]@);
            }
        }
        let mut i: usize = 0;
        assert(self.relay_clients@ =~= without_values(clients, doomed@.take(0).to_set()));
        while i < doomed.len()
            invariant
                i <= doomed@.len(),
                self.inv(),
                self.host_rooms@ == old(self)@.host_rooms.remove(addr),
                self.connections@ == old(self)@.open,
                self.next_handle == old(self)@.next_handle,
                self.member_limit == old(self)@.member_limit,
                forall|k: u32| #[trigger]
                    self.rooms@.contains_key(k) <==> before.contains_key(k) && !doomed@.take(
                        i as int,
                    ).contains(k),
                forall|k: u32| #[trigger] self.rooms@.contains_key(k) ==> self.rooms@[k] == before[k],
                self.relay_clients@ == without_values(clients, doomed@.take(i as int).to_set()),
            decreases doomed@.len() - i,
        {
            let id = doomed[i];
            self.rooms.remove(&id);
            self.relay_clients.remove_value(id);
            proof {
                lemma_take_step_contains(doomed@, i as int);
                assert(self.relay_clients@ =~= without_values(
                    clients,
                    doomed@.take(i + 1).to_set(),
                ));
            }
            i += 1;
        }
        proof {
            assert(doomed@.take(i as int) =~= doomed@);
            assert(doomed@.to_set() =~= closed);
            assert(clients == old(self)@.relay_clients);
            assert(self@.rooms =~= old(self)@.vacate(addr).rooms);
            assert(self@ =~= old(self)@.vacate(addr));
        }
    }

    /// Opens the room `id` for `host`.
    fn allocate(&mut self, host: Connection, id: u32)
        requires
            old(self).wf(),
            !old(self)@.rooms.contains_key(id),
        ensures
            final(self).wf(),
            final(self)@ == old(self)@.allocate(host, id),
    {
        proof {
            lemma_allocate_wf(self@, host, id);
        }
        self.rooms.insert(id, Room { host, clients: Vec::new(), id });
        self.host_rooms.insert(host.addr, id);
        assert(self@.rooms =~= old(self)@.rooms.insert(
            id,
            RoomView { host, clients: Seq::empty(), id },
        ));
        assert(self@ =~= old(self)@.allocate(host, id));
    }

    /// Opens a room for `host` under the identifier `drawn`, the outcome of a
    /// random draw, and returns the identifier. Fails with `NoFreeRoom`, and
    /// changes nothing, if nothing was drawn or if a room has the identifier.
    pub fn host_drawn(&mut self, host: Connection, drawn: Option<u32>) -> (r: Result<u32, Error>)
        requires
            old(self).wf(),
        ensures
            final(self).wf(),
            r == old(self)@.draw_outcome(drawn),
            match r {
                Ok(id) => final(self)@ == old(self)@.allocate(host, id),
                Err(_) => final(self)@ == old(self)@,
            },
    {
        match drawn {
            Some(id) => {
                if self.room_is_free(id) {
                    self.allocate(host, id);
                    Ok(id)
                } else {
                    Err(Error::NoFreeRoom)
                }
            },
            None => Err(Error::NoFreeRoom),
        }
    }

    /// Opens a room for `host` under an identifier drawn at random, and
    /// returns the identifier. Fails with `NoFreeRoom`, and changes nothing,
    /// if no free identifier was drawn. That is certain once every identifier
    /// that can be drawn is taken, and it cannot happen as long as none of
    /// them is taken.
    pub fn host(&mut self, host: Connection) -> (r: Result<u32, Error>)
        requires
            old(self).wf(),
        ensures
            final(self).wf(),
            match r {
                Ok(id) => {
                    &&& id <= MAX_ROOM_ID
                    &&& !old(self)@.rooms.contains_key(id)
                    &&& final(self)@ == old(self)@.allocate(host, id)
                },
                Err(e) => e == Error::NoFreeRoom && final(self)@ == old(self)@,
            },
            old(self)@.untaken() ==> r is Ok,
            old(self)@.exhausted() ==> r is Err,
    {
        let drawn = self.find_free_room_id();
        self.host_drawn(host, drawn)
    }

    /// Resolves the host of the room `room_id` for a client that wants to
    /// join it. Fails with `RoomNotFound` if there is no such room.
    pub fn join(&self, room_id: u32) -> (r: Result<Connection, Error>)
        requires
            self.wf(),
        ensures
            r == self@.resolve(room_id),
    {
        match self.rooms.get(&room_id) {
            Some(room) => Ok(room.host),
            None => Err(Error::RoomNotFound),
        }
    }

    /// Binds `conn` as a relay client to the room hosted from `host_addr`,
    /// or from its own address if none is given, and returns the identifier
    /// of the room. A connection that the room lists already is not listed
    /// again. Fails with `HostDisconnected` if no room is hosted from there,
    /// and with `RoomFull` if the room lists as many members as allowed and
    /// `conn` is none of them; a failure changes nothing.
    pub fn add_relay(&mut self, conn: Connection, host_addr: Option<Address>) -> (r: Result<
        u32,
        Error,
    >)
        requires
            old(self).wf(),
        ensures
            final(self).wf(),
            r == old(self)@.admission(conn, host_addr),
            match r {
                Ok(id) => final(self)@ == old(self)@.bind(conn, id),
                Err(_) => final(self)@ == old(self)@,
            },
    {
        let target = match host_addr {
            Some(addr) => addr,
            None => conn.addr,
        };
        let room_id = match self.host_rooms.get(target) {
            Some(id) => id,
            None => {
                return Err(Error::HostDisconnected);
            },
        };
        let (listed, full) = match self.rooms.get(&room_id) {
            Some(room) => (is_member(&room.clients, conn), room.clients.len()
                >= self.member_limit),
            None => (false, true),
        };
        if full && !listed {
            return Err(Error::RoomFull);
        }
        proof {
            lemma_bind_wf(self@, conn, room_id);
        }
        self.relay_clients.insert(conn.addr, room_id);
        if !listed {
            match self.rooms.remove(&room_id) {
                Some(room) => {
                    let mut room = room;
                    room.clients.push(conn);
                    self.rooms.insert(room_id, room);
                },
                None => {},
            }
        }
        assert(self@.rooms =~= old(self)@.bind(conn, room_id).rooms);
        assert(self@ =~= old(self)@.bind(conn, room_id));
        Ok(room_id)
    }

    /// Fans the payload `data` of `origin` out in the room to which `origin`
    /// is bound: to the open member with the address `to`, or to every other
    /// open member if no address is given. The members whose connection was
    /// closed are pruned from the room. Fails with `NotARelayClient`, and
    /// changes nothing, if `origin` is bound to no room.
    pub fn relay(&mut self, origin: Connection, to: Option<Address>, data: Vec<u8>) -> (r:
        Result<Outgoing, Error>)
        requires
            old(self).wf(),
        ensures
            final(self).wf(),
            match old(self)@.origin_room(origin) {
                Ok(id) => {
                    &&& r matches Ok(out)
                    &&& out.targets@ == old(self)@.recipients(id, origin, to)
                    &&& out.targets@.no_duplicates()
                    &&& to is Some ==> out.targets@.len() <= 1
                    &&& out.packet@ == PacketView::Relayed(origin.addr, data@)
                    &&& final(self)@ == old(self)@.prune(id)
                },
                Err(e) => r == Err::<Outgoing, Error>(e) && final(self)@ == old(self)@,
            },
    {
        let room_id = match self.relay_clients.get(origin.addr) {
            Some(id) => id,
            None => {
                return Err(Error::NotARelayClient);
            },
        };
        proof {
            lemma_prune_wf(self@, room_id);
            law_broadcast(self@, room_id, origin);
            lemma_fanout_once(self@, room_id, origin, to);
        }
        let mut targets: Vec<Connection> = Vec::new();
        match self.rooms.remove(&room_id) {
            Some(room) => {
                let mut living: Vec<Connection> = Vec::new();
                let ghost alive = is_open(self.connections@);
                let ghost wanted = takes_part(self.connections@, origin, to);
                let mut i: usize = 0;
                while i < room.clients.len()
                    invariant
                        i <= room.clients@.len(),
                        alive == is_open(self.connections@),
                        wanted == takes_part(self.connections@, origin, to),
                        living@ == room.clients@.take(i as int).filter(alive),
                        targets@ == room.clients@.take(i as int).filter(wanted),
                    decreases room.clients@.len() - i,
                {
                    let client = room.clients[i];
                    proof {
                        lemma_filter_step(room.clients@, i as int, alive);
                        lemma_filter_step(room.clients@, i as int, wanted);
                    }
                    if self.is_connected(client) {
                        living.push(client);
                        let addressed = match to {
                            Some(addr) => client.addr == addr,
                            None => true,
                        };
                        if client.handle != origin.handle && addressed {
                            targets.push(client);
                        }
                    }
                    i += 1;
                }
                assert(room.clients@.take(i as int) =~= room.clients@);
                self.rooms.insert(room_id, Room { host: room.host, clients: living, id: room.id });
            },
            None => {},
        }
        assert(self@.rooms =~= old(self)@.prune(room_id).rooms);
        assert(self@ =~= old(self)@.prune(room_id));
        Ok(Outgoing { targets, packet: Packet::Relayed(origin.addr, data) })
    }

    /// Closes the connection `conn`. The rooms that it hosts cease to exist.
    /// If it is then still bound to a room as a relay client, the other open
    /// members of that room are to be told that it has left: they are the
    /// targets of the returned notification.
    pub fn disconnect(&mut self, conn: Connection) -> (out: Outgoing)
        requires
            old(self).wf(),
        ensures
            final(self).wf(),
            final(self)@ == old(self)@.disconnect(conn),
            out.targets@ == old(self)@.mourners(conn),
            out.targets@.no_duplicates(),
            out.packet@ == PacketView::Disconnected(conn.addr),
    {
        proof {
            lemma_disconnect_wf(self@, conn);
            lemma_mourners_once(self@, conn);
        }
        self.vacate(conn.addr);
        let mut targets: Vec<Connection> = Vec::new();
        match self.relay_clients.remove(conn.addr) {
            Some(room_id) => {
                match self.rooms.get(&room_id) {
                    Some(room) => {
                        let ghost wanted = takes_part(self.connections@, conn, None);
                        let mut i: usize = 0;
                        while i < room.clients.len()
                            invariant
                                i <= room.clients@.len(),
                                wanted == takes_part(self.connections@, conn, None),
                                targets@ == room.clients@.take(i as int).filter(wanted),
                            decreases room.clients@.len() - i,
                        {
                            let client = room.clients[i];
                            proof {
                                lemma_filter_step(room.clients@, i as int, wanted);
                            }
                            if self.is_connected(client) && client.handle != conn.handle {
                                targets.push(client);
                            }
                            i += 1;
                        }
                        assert(room.clients@.take(i as int) =~= room.clients@);
                    },
                    None => {},
                }
            },
            None => {},
        }
        match self.connections.remove(&conn.handle) {
            Some(addr) => {
                self.addresses.remove(addr);
            },
            None => {},
        }
        assert(self@ =~= old(self)@.disconnect(conn));
        Outgoing { targets, packet: Packet::Disconnected(conn.addr) }
    }
}

/// Opens a room for `host` under the identifier `room_id` that the host asks
/// for, and returns the identifier. Fails with `RoomIdInUse`, and changes
/// nothing, if a room has that identifier.
pub fn whrc_custom_id_host(state: &mut Matchmaker, host: Connection, room_id: u32) -> (r: Result<
    u32,
    Error,
>)
    requires
        old(state).wf(),
    ensures
        final(state).wf(),
        r == old(state)@.claim(room_id),
        match r {
            Ok(id) => final(state)@ == old(state)@.allocate(host, id),
            Err(_) => final(state)@ == old(state)@,
        },
{
    if !state.room_is_free(room_id) {
        return Err(Error::RoomIdInUse);
    }
    state.allocate(host, room_id);
    Ok(room_id)
}

} // verus!
