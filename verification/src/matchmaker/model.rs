//! The registry of rooms as a mathematical value, and its transitions.
//!
//! Every operation of the broker is described here as a function from one
//! registry to the next. The executable registry promises to follow them.

use crate::address::Address;
use crate::address_map::without_values;
use vstd::prelude::*;
use vstd::string::StringExecFns;

verus! {

/// Largest room identifier that a random allocation can draw.
pub const MAX_ROOM_ID: u32 = 9999;

/// How often a random allocation draws before it gives up.
pub const MAX_DRAWS: u32 = 50;

/// One accepted connection: the handle that the registry gave it, and the
/// address of its remote end. The handle tells connections apart; the address
/// is what the other participants know a connection by.
#[derive(Clone, Copy, Debug, PartialEq, Eq, Structural, Hash)]
pub struct Connection {
    pub handle: u64,
    pub addr: Address,
}

/// A failure of a registry operation.
#[derive(Clone, Copy, Debug, PartialEq, Eq, Structural, Hash)]
pub enum Error {
    /// No free room identifier was drawn. The request may be repeated.
    NoFreeRoom,
    /// The requested room identifier belongs to an open room.
    RoomIdInUse,
    /// No room has the given identifier.
    RoomNotFound,
    /// No room is hosted from the given address.
    HostDisconnected,
    /// The sender of a payload is not a relay client of any room.
    NotARelayClient,
    /// The room has as many members as the broker allows.
    RoomFull,
    /// The packet is none that a client may send to the broker.
    InvalidPacket,
}

impl Error {
    /// The text that tells a client of the failure.
    pub open spec fn spec_message(self) -> Seq<char> {
        match self {
            Error::NoFreeRoom => "Could not find any more free rooms. Try again"@,
            Error::RoomIdInUse => "The room ID is already in use. Try another one"@,
            Error::RoomNotFound =>
                "No room found with the given ID. Check whether you spelled the ID correctly"@,
            Error::HostDisconnected => "The host seems to have disconnected"@,
            Error::NotARelayClient => "Only relay clients may send Relay packets"@,
            Error::RoomFull => "The room is full. Try again later"@,
            Error::InvalidPacket => "Unrecognized or unimplemented packet"@,
        }
    }

    /// The text that tells a client of the failure.
    pub fn message(self) -> (text: String)
        ensures
            text@ == self.spec_message(),
    {
        match self {
            Error::NoFreeRoom => String::from_str("Could not find any more free rooms. Try again"),
            Error::RoomIdInUse => String::from_str(
                "The room ID is already in use. Try another one",
            ),
            Error::RoomNotFound => String::from_str(
                "No room found with the given ID. Check whether you spelled the ID correctly",
            ),
            Error::HostDisconnected => String::from_str("The host seems to have disconnected"),
            Error::NotARelayClient => String::from_str(
                "Only relay clients may send Relay packets",
            ),
            Error::RoomFull => String::from_str("The room is full. Try again later"),
            Error::InvalidPacket => String::from_str("Unrecognized or unimplemented packet"),
        }
    }

    /// Whether the failure ends the connection. The other failures are
    /// reported to the client, and the connection stays open.
    pub open spec fn spec_is_fatal(self) -> bool {
        self == Error::InvalidPacket
    }

    /// Whether the failure ends the connection.
    #[verifier::when_used_as_spec(spec_is_fatal)]
    pub fn is_fatal(self) -> (r: bool)
        ensures
            r == self.spec_is_fatal(),
    {
        match self {
            Error::InvalidPacket => true,
            _ => false,
        }
    }
}

/// A room as a mathematical value.
pub struct RoomView {
    /// The connection that opened the room.
    pub host: Connection,
    /// The relay clients bound to the room, each once, in the order in which
    /// they were first bound. A connection that was closed stays listed
    /// until the next fan-out prunes it.
    pub clients: Seq<Connection>,
    /// The identifier of the room.
    pub id: u32,
}

/// The registry as a mathematical value.
#[verifier::ext_equal]
pub struct Registry {
    /// The open rooms by their identifier.
    pub rooms: Map<u32, RoomView>,
    /// For the address of each host, the identifier of its room.
    pub host_rooms: Map<Address, u32>,
    /// For the address of each relay client, the identifier of its room.
    pub relay_clients: Map<Address, u32>,
    /// The open connections by their handle, each with its address.
    pub open: Map<u64, Address>,
    /// The handle that the next connection gets.
    pub next_handle: u64,
    /// The largest number of members that a room may list.
    pub member_limit: usize,
}

/// Whether the connection `c` is among the open connections `open`: its
/// handle is open, under its address.
pub open spec fn listed(open: Map<u64, Address>, c: Connection) -> bool {
    open.contains_key(c.handle) && open[c.handle] == c.addr
}

/// The test that a member passes if its connection is open.
pub open spec fn is_open(open: Map<u64, Address>) -> spec_fn(Connection) -> bool {
    |c: Connection| listed(open, c)
}

/// The test that a member passes if it takes part in a fan-out from
/// `origin`: it is open, it is not `origin` itself and, where a target
/// address is given, it has that address.
pub open spec fn takes_part(open: Map<u64, Address>, origin: Connection, to: Option<Address>)
    -> spec_fn(Connection) -> bool {
    |c: Connection|
        listed(open, c) && c.handle != origin.handle && (to is None || to == Some(c.addr))
}

/// The members among `clients` that take part in a fan-out from `origin`, in
/// the order in which they are listed.
pub open spec fn fanout(
    open: Map<u64, Address>,
    clients: Seq<Connection>,
    origin: Connection,
    to: Option<Address>,
) -> Seq<Connection> {
    clients.filter(takes_part(open, origin, to))
}

impl Registry {
    /// The registry without rooms and connections, whose rooms may list
    /// `member_limit` members.
    pub open spec fn empty(member_limit: usize) -> Registry {
        Registry {
            rooms: Map::empty(),
            host_rooms: Map::empty(),
            relay_clients: Map::empty(),
            open: Map::empty(),
            next_handle: 0,
            member_limit,
        }
    }

    /// The invariant of the registry. A room is stored under its own
    /// identifier, lists no connection twice and no more members than
    /// allowed; the host of every room is recorded as a host, and the room
    /// recorded for a host is one of its rooms; every relay client belongs
    /// to an open room; the handles in use lie below the next one; and no
    /// two open connections have the same address.
    pub open spec fn wf(self) -> bool {
        &&& self.apart()
        &&& forall|id: u32| #[trigger]
            self.rooms.contains_key(id) ==> {
                &&& self.rooms[id].id == id
                &&& self.rooms[id].clients.no_duplicates()
                &&& self.rooms[id].clients.len() <= self.member_limit
                &&& self.host_rooms.contains_key(self.rooms[id].host.addr)
            }
        &&& forall|addr: Address| #[trigger]
            self.host_rooms.contains_key(addr) ==> {
                &&& self.rooms.contains_key(self.host_rooms[addr])
                &&& self.rooms[self.host_rooms[addr]].host.addr == addr
            }
        &&& forall|addr: Address| #[trigger]
            self.relay_clients.contains_key(addr) ==> self.rooms.contains_key(
                self.relay_clients[addr],
            )
        &&& forall|handle: u64| #[trigger]
            self.open.contains_key(handle) ==> handle < self.next_handle
    }

    /// Whether the connection is open: its handle is open, under its
    /// address.
    pub open spec fn alive(self, conn: Connection) -> bool {
        listed(self.open, conn)
    }

    /// Whether a connection with the address `addr` is open.
    pub open spec fn address_is_open(self, addr: Address) -> bool {
        exists|handle: u64| #[trigger] self.open.contains_key(handle) && self.open[handle] == addr
    }

    /// Whether the open connections are apart: no two of them have the same
    /// address.
    pub open spec fn apart(self) -> bool {
        forall|one: u64, other: u64|
            #[trigger] self.open.contains_key(one) && #[trigger] self.open.contains_key(other)
                && self.open[one] == self.open[other] ==> one == other
    }

    /// Whether room identifiers have run out for random allocation: every
    /// identifier that can be drawn belongs to an open room.
    pub open spec fn exhausted(self) -> bool {
        forall|id: u32| id <= MAX_ROOM_ID ==> #[trigger]
            self.rooms.contains_key(id)
    }

    /// Whether a random allocation cannot miss: no identifier that can be
    /// drawn belongs to an open room.
    pub open spec fn untaken(self) -> bool {
        forall|id: u32| id <= MAX_ROOM_ID ==> !#[trigger] self.rooms.contains_key(id)
    }

    /// Whether a connection with the address `addr` can be accepted: a
    /// handle is left, and no open connection has the address, since an
    /// address stands for one connection at a time.
    pub open spec fn admits(self, addr: Address) -> bool {
        self.next_handle < u64::MAX && !self.address_is_open(addr)
    }

    /// A connection with the address `addr` is accepted.
    pub open spec fn connect(self, addr: Address) -> Registry
        recommends
            self.admits(addr),
    {
        Registry {
            open: self.open.insert(self.next_handle, addr),
            next_handle: (self.next_handle + 1) as u64,
            ..self
        }
    }

    /// The rooms that are hosted from `addr`.
    pub open spec fn hosted(self, addr: Address) -> Set<u32> {
        Set::new(|id: u32| self.rooms.contains_key(id) && self.rooms[id].host.addr == addr)
    }

    /// The rooms hosted from `addr` cease to exist: the address is that of a
    /// host no more, and the relay clients of these rooms are relay clients
    /// no more.
    pub open spec fn vacate(self, addr: Address) -> Registry {
        let closed = self.hosted(addr);
        Registry {
            rooms: self.rooms.remove_keys(closed),
            host_rooms: self.host_rooms.remove(addr),
            relay_clients: without_values(self.relay_clients, closed),
            ..self
        }
    }

    /// The connection `host` opens the room `id`, which is recorded as the
    /// room of its address.
    pub open spec fn allocate(self, host: Connection, id: u32) -> Registry
        recommends
            !self.rooms.contains_key(id),
    {
        Registry {
            rooms: self.rooms.insert(id, RoomView { host, clients: Seq::empty(), id }),
            host_rooms: self.host_rooms.insert(host.addr, id),
            ..self
        }
    }

    /// The outcome of a request for a room under an identifier drawn at
    /// random: the identifier, or the failure `NoFreeRoom` if none was drawn
    /// or a room has it.
    pub open spec fn draw_outcome(self, drawn: Option<u32>) -> Result<u32, Error> {
        match drawn {
            Some(id) if !self.rooms.contains_key(id) => Ok(id),
            _ => Err(Error::NoFreeRoom),
        }
    }

    /// The outcome of a request for the room `id`: the identifier, or the
    /// failure `RoomIdInUse` if a room has it.
    pub open spec fn claim(self, id: u32) -> Result<u32, Error> {
        if self.rooms.contains_key(id) {
            Err(Error::RoomIdInUse)
        } else {
            Ok(id)
        }
    }

    /// The outcome of a request to join the room `id`: the host of the room,
    /// or the failure `RoomNotFound` if there is no such room.
    pub open spec fn resolve(self, id: u32) -> Result<Connection, Error> {
        if self.rooms.contains_key(id) {
            Ok(self.rooms[id].host)
        } else {
            Err(Error::RoomNotFound)
        }
    }

    /// The room that a relay request of `conn` for the host address `host`
    /// leads to, or the failure `HostDisconnected` if no room is hosted from
    /// there. Without a host address the requester's own address is taken.
    pub open spec fn relay_room(self, conn: Connection, host: Option<Address>) -> Result<
        u32,
        Error,
    > {
        let target = match host {
            Some(addr) => addr,
            None => conn.addr,
        };
        if self.host_rooms.contains_key(target) {
            Ok(self.host_rooms[target])
        } else {
            Err(Error::HostDisconnected)
        }
    }

    /// The room to which a relay request of `conn` for the host address
    /// `host` binds it: the room that the request leads to, unless it is
    /// full and does not list `conn` yet, which is the failure `RoomFull`.
    pub open spec fn admission(self, conn: Connection, host: Option<Address>) -> Result<
        u32,
        Error,
    > {
        match self.relay_room(conn, host) {
            Ok(id) => if self.rooms[id].clients.contains(conn) || self.rooms[id].clients.len()
                < self.member_limit {
                Ok(id)
            } else {
                Err(Error::RoomFull)
            },
            Err(e) => Err(e),
        }
    }

    /// The connection `conn` becomes a relay client of the room `id`: the
    /// room is recorded under its address, and it is appended to the members
    /// of the room, unless the room lists it already. A member is listed
    /// once, however often it is bound.
    pub open spec fn bind(self, conn: Connection, id: u32) -> Registry
        recommends
            self.rooms.contains_key(id),
            self.rooms[id].clients.contains(conn) || self.rooms[id].clients.len()
                < self.member_limit,
    {
        let room = self.rooms[id];
        let clients = if room.clients.contains(conn) {
            room.clients
        } else {
            room.clients.push(conn)
        };
        Registry {
            rooms: self.rooms.insert(id, RoomView { clients, ..room }),
            relay_clients: self.relay_clients.insert(conn.addr, id),
            ..self
        }
    }

    /// The room in which a payload of `origin` is fanned out, or the failure
    /// `NotARelayClient` if `origin` is bound to no room.
    pub open spec fn origin_room(self, origin: Connection) -> Result<u32, Error> {
        if self.relay_clients.contains_key(origin.addr) {
            Ok(self.relay_clients[origin.addr])
        } else {
            Err(Error::NotARelayClient)
        }
    }

    /// The members of the room `id` whose connection is open, in the order of
    /// the member list.
    pub open spec fn living(self, id: u32) -> Seq<Connection> {
        self.rooms[id].clients.filter(is_open(self.open))
    }

    /// The closed connections are dropped from the members of the room `id`.
    pub open spec fn prune(self, id: u32) -> Registry
        recommends
            self.rooms.contains_key(id),
    {
        let room = self.rooms[id];
        Registry {
            rooms: self.rooms.insert(id, RoomView { clients: self.living(id), ..room }),
            ..self
        }
    }

    /// The members of the room `id` that receive a payload of `origin`, in
    /// the order of the member list.
    pub open spec fn recipients(self, id: u32, origin: Connection, to: Option<Address>) -> Seq<
        Connection,
    > {
        fanout(self.open, self.rooms[id].clients, origin, to)
    }

    /// The connections that are told that `conn` has left: the other open
    /// members of the room to which it is bound once the rooms that it hosts
    /// are closed. None, if it is then bound to no room.
    pub open spec fn mourners(self, conn: Connection) -> Seq<Connection> {
        let vacated = self.vacate(conn.addr);
        if vacated.relay_clients.contains_key(conn.addr) {
            vacated.recipients(vacated.relay_clients[conn.addr], conn, None)
        } else {
            Seq::empty()
        }
    }

    /// The connection `conn` is closed: the rooms that it hosts cease to
    /// exist, it is a relay client no more, and its handle is open no more.
    pub open spec fn disconnect(self, conn: Connection) -> Registry {
        let vacated = self.vacate(conn.addr);
        Registry {
            relay_clients: vacated.relay_clients.remove(conn.addr),
            open: vacated.open.remove(conn.handle),
            ..vacated
        }
    }
}

/// Accepting a connection keeps the registry well formed.
pub proof fn lemma_connect_wf(reg: Registry, addr: Address)
    requires
        reg.wf(),
        reg.admits(addr),
    ensures
        reg.connect(addr).wf(),
        reg.connect(addr).alive(Connection { handle: reg.next_handle, addr }),
        !reg.open.contains_key(reg.next_handle),
{
    if reg.open.contains_key(reg.next_handle) {
        assert(reg.next_handle < reg.next_handle);
    }
    let next = reg.connect(addr);
    assert forall|one: u64, other: u64|
        #[trigger] next.open.contains_key(one) && #[trigger] next.open.contains_key(other)
            && next.open[one] == next.open[other] implies one == other by {
        if one != reg.next_handle {
            assert(reg.open.contains_key(one));
        }
        if other != reg.next_handle {
            assert(reg.open.contains_key(other));
        }
    }
    assert forall|id: u32| #[trigger] next.rooms.contains_key(id) implies {
        &&& next.rooms[id].id == id
        &&& next.rooms[id].clients.no_duplicates()
        &&& next.rooms[id].clients.len() <= next.member_limit
        &&& next.host_rooms.contains_key(next.rooms[id].host.addr)
    } by {
        assert(reg.rooms.contains_key(id));
    }
}

/// Closing the rooms of a host keeps the registry well formed. No room is
/// hosted from the address afterwards, and the rooms of the other hosts are
/// as they were.
pub proof fn lemma_vacate_wf(reg: Registry, addr: Address)
    requires
        reg.wf(),
    ensures
        reg.vacate(addr).wf(),
        !reg.vacate(addr).host_rooms.contains_key(addr),
        reg.vacate(addr).hosted(addr) == Set::<u32>::empty(),
        !reg.host_rooms.contains_key(addr) ==> reg.vacate(addr) == reg,
        forall|id: u32| #[trigger]
            reg.vacate(addr).rooms.contains_key(id) <==> reg.rooms.contains_key(id)
                && reg.rooms[id].host.addr != addr,
        forall|id: u32| #[trigger]
            reg.vacate(addr).rooms.contains_key(id) ==> reg.vacate(addr).rooms[id]
                == reg.rooms[id],
{
    let next = reg.vacate(addr);
    assert forall|other: u32| #[trigger] next.rooms.contains_key(other) implies {
        &&& next.rooms[other].id == other
        &&& next.rooms[other].clients.no_duplicates()
        &&& next.rooms[other].clients.len() <= next.member_limit
        &&& next.host_rooms.contains_key(next.rooms[other].host.addr)
    } by {
        assert(reg.rooms.contains_key(other));
    }
    assert forall|a: Address| #[trigger] next.host_rooms.contains_key(a) implies {
        &&& next.rooms.contains_key(next.host_rooms[a])
        &&& next.rooms[next.host_rooms[a]].host.addr == a
    } by {
        assert(reg.host_rooms.contains_key(a));
    }
    assert forall|a: Address| #[trigger]
        next.relay_clients.contains_key(a) implies next.rooms.contains_key(
        next.relay_clients[a],
    ) by {
        assert(reg.relay_clients.contains_key(a));
    }
    assert(next.hosted(addr) =~= Set::<u32>::empty());
    if !reg.host_rooms.contains_key(addr) {
        assert(reg.hosted(addr) =~= Set::<u32>::empty()) by {
            assert forall|id: u32| !reg.hosted(addr).contains(id) by {
                if reg.rooms.contains_key(id) && reg.rooms[id].host.addr == addr {
                    assert(reg.host_rooms.contains_key(reg.rooms[id].host.addr));
                }
            }
        }
        assert(next.rooms =~= reg.rooms);
        assert(next.host_rooms =~= reg.host_rooms);
        assert(next.relay_clients =~= reg.relay_clients);
        assert(next =~= reg);
    }
}

/// Opening a room under a free identifier keeps the registry well formed,
/// and leaves the other rooms as they were.
pub proof fn lemma_allocate_wf(reg: Registry, host: Connection, id: u32)
    requires
        reg.wf(),
        !reg.rooms.contains_key(id),
    ensures
        reg.allocate(host, id).wf(),
        reg.allocate(host, id).rooms.contains_key(id),
        reg.allocate(host, id).rooms[id].host == host,
        reg.allocate(host, id).host_rooms.contains_key(host.addr),
        reg.allocate(host, id).host_rooms[host.addr] == id,
        forall|other: u32| #[trigger]
            reg.rooms.contains_key(other) ==> reg.allocate(host, id).rooms.contains_key(other)
                && reg.allocate(host, id).rooms[other] == reg.rooms[other],
{
    let next = reg.allocate(host, id);
    assert forall|other: u32| #[trigger] next.rooms.contains_key(other) implies {
        &&& next.rooms[other].id == other
        &&& next.rooms[other].clients.no_duplicates()
        &&& next.rooms[other].clients.len() <= next.member_limit
        &&& next.host_rooms.contains_key(next.rooms[other].host.addr)
    } by {
        if other != id {
            assert(reg.rooms.contains_key(other));
        }
    }
    assert forall|addr: Address| #[trigger] next.host_rooms.contains_key(addr) implies {
        &&& next.rooms.contains_key(next.host_rooms[addr])
        &&& next.rooms[next.host_rooms[addr]].host.addr == addr
    } by {
        if addr != host.addr {
            assert(reg.host_rooms.contains_key(addr));
        }
    }
    assert forall|addr: Address| #[trigger]
        next.relay_clients.contains_key(addr) implies next.rooms.contains_key(
        next.relay_clients[addr],
    ) by {
        assert(reg.relay_clients.contains_key(addr));
    }
}

/// Binding a relay client to an open room keeps the registry well formed.
pub proof fn lemma_bind_wf(reg: Registry, conn: Connection, id: u32)
    requires
        reg.wf(),
        reg.rooms.contains_key(id),
        reg.rooms[id].clients.contains(conn) || reg.rooms[id].clients.len() < reg.member_limit,
    ensures
        reg.bind(conn, id).wf(),
        reg.bind(conn, id).rooms[id].clients.contains(conn),
{
    let next = reg.bind(conn, id);
    let clients = reg.rooms[id].clients;
    if !clients.contains(conn) {
        let longer = clients.push(conn);
        assert forall|i: int, j: int| 0 <= i < longer.len() && 0 <= j < longer.len() && i
            != j implies longer[i] != longer[j] by {
            if i < clients.len() {
                assert(clients.contains(clients[i]));
            }
            if j < clients.len() {
                assert(clients.contains(clients[j]));
            }
        }
        assert(longer[clients.len() as int] == conn);
    }
    assert forall|other: u32| #[trigger] next.rooms.contains_key(other) implies {
        &&& next.rooms[other].id == other
        &&& next.rooms[other].clients.no_duplicates()
        &&& next.rooms[other].clients.len() <= next.member_limit
        &&& next.host_rooms.contains_key(next.rooms[other].host.addr)
    } by {
        assert(reg.rooms.contains_key(other));
    }
    assert forall|addr: Address| #[trigger] next.host_rooms.contains_key(addr) implies {
        &&& next.rooms.contains_key(next.host_rooms[addr])
        &&& next.rooms[next.host_rooms[addr]].host.addr == addr
    } by {
        assert(reg.host_rooms.contains_key(addr));
    }
    assert forall|addr: Address| #[trigger]
        next.relay_clients.contains_key(addr) implies next.rooms.contains_key(
        next.relay_clients[addr],
    ) by {
        if addr != conn.addr {
            assert(reg.relay_clients.contains_key(addr));
        }
    }
}

/// Pruning the members of an open room keeps the registry well formed.
pub proof fn lemma_prune_wf(reg: Registry, id: u32)
    requires
        reg.wf(),
        reg.rooms.contains_key(id),
    ensures
        reg.prune(id).wf(),
{
    let next = reg.prune(id);
    reg.rooms[id].clients.lemma_filter_len(is_open(reg.open));
    crate::seq_facts::lemma_filter_no_duplicates(reg.rooms[id].clients, is_open(reg.open));
    assert forall|other: u32| #[trigger] next.rooms.contains_key(other) implies {
        &&& next.rooms[other].id == other
        &&& next.rooms[other].clients.no_duplicates()
        &&& next.rooms[other].clients.len() <= next.member_limit
        &&& next.host_rooms.contains_key(next.rooms[other].host.addr)
    } by {
        assert(reg.rooms.contains_key(other));
    }
    assert forall|addr: Address| #[trigger] next.host_rooms.contains_key(addr) implies {
        &&& next.rooms.contains_key(next.host_rooms[addr])
        &&& next.rooms[next.host_rooms[addr]].host.addr == addr
    } by {
        assert(reg.host_rooms.contains_key(addr));
    }
    assert forall|addr: Address| #[trigger]
        next.relay_clients.contains_key(addr) implies next.rooms.contains_key(
        next.relay_clients[addr],
    ) by {
        assert(reg.relay_clients.contains_key(addr));
    }
}

/// Closing a connection keeps the registry well formed.
pub proof fn lemma_disconnect_wf(reg: Registry, conn: Connection)
    requires
        reg.wf(),
    ensures
        reg.disconnect(conn).wf(),
        !reg.disconnect(conn).alive(conn),
{
    lemma_vacate_wf(reg, conn.addr);
    let vacated = reg.vacate(conn.addr);
    let next = reg.disconnect(conn);
    assert forall|other: u32| #[trigger] next.rooms.contains_key(other) implies {
        &&& next.rooms[other].id == other
        &&& next.rooms[other].clients.no_duplicates()
        &&& next.rooms[other].clients.len() <= next.member_limit
        &&& next.host_rooms.contains_key(next.rooms[other].host.addr)
    } by {
        assert(vacated.rooms.contains_key(other));
    }
    assert forall|addr: Address| #[trigger]
        next.relay_clients.contains_key(addr) implies next.rooms.contains_key(
        next.relay_clients[addr],
    ) by {
        assert(vacated.relay_clients.contains_key(addr));
    }
    assert forall|handle: u64| #[trigger] next.open.contains_key(handle) implies handle
        < next.next_handle by {
        assert(vacated.open.contains_key(handle));
    }
    assert forall|one: u64, other: u64|
        #[trigger] next.open.contains_key(one) && #[trigger] next.open.contains_key(other)
            && next.open[one] == next.open[other] implies one == other by {
        assert(reg.open.contains_key(one) && reg.open.contains_key(other));
    }
}

} // verus!
