//! What holds of the registry over several operations.

use crate::address::Address;
use crate::matchmaker::model::{
    lemma_allocate_wf, lemma_bind_wf, lemma_disconnect_wf, lemma_vacate_wf, takes_part,
    Connection, Error, Registry,
};
use crate::seq_facts::{lemma_filter_members, lemma_filter_no_duplicates};
use vstd::prelude::*;

verus! {

/// The registry after the connections `hosts` have opened the rooms `ids`,
/// one after the other.
pub open spec fn after_allocations(reg: Registry, hosts: Seq<Connection>, ids: Seq<u32>)
    -> Registry
    decreases hosts.len(),
{
    if hosts.len() == 0 || ids.len() != hosts.len() {
        reg
    } else {
        after_allocations(reg, hosts.drop_last(), ids.drop_last()).allocate(
            hosts.last(),
            ids.last(),
        )
    }
}

/// Whether each of the rooms `ids` was free when its host opened it.
pub open spec fn each_was_free(reg: Registry, hosts: Seq<Connection>, ids: Seq<u32>) -> bool {
    forall|k: int|
        0 <= k < ids.len() ==> !(#[trigger] after_allocations(
            reg,
            hosts.take(k),
            ids.take(k),
        )).rooms.contains_key(ids[k])
}

/// After a run of allocations, all rooms of the run are open, each with its
/// host.
proof fn lemma_after_allocations(reg: Registry, hosts: Seq<Connection>, ids: Seq<u32>)
    requires
        reg.wf(),
        hosts.len() == ids.len(),
        each_was_free(reg, hosts, ids),
    ensures
        after_allocations(reg, hosts, ids).wf(),
        forall|id: u32|
            reg.rooms.contains_key(id) ==> #[trigger] after_allocations(
                reg,
                hosts,
                ids,
            ).rooms.contains_key(id),
        forall|i: int|
            0 <= i < ids.len() ==> {
                &&& #[trigger] after_allocations(reg, hosts, ids).rooms.contains_key(ids[i])
                &&& after_allocations(reg, hosts, ids).rooms[ids[i]].host == hosts[i]
            },
    decreases hosts.len(),
{
    if hosts.len() > 0 {
        let n = hosts.len() - 1;
        let h = hosts.drop_last();
        let d = ids.drop_last();
        assert(h =~= hosts.take(n));
        assert(d =~= ids.take(n));
        assert(each_was_free(reg, h, d)) by {
            assert forall|k: int| 0 <= k < d.len() implies !(#[trigger] after_allocations(
                reg,
                h.take(k),
                d.take(k),
            )).rooms.contains_key(d[k]) by {
                assert(h.take(k) =~= hosts.take(k));
                assert(d.take(k) =~= ids.take(k));
                assert(!after_allocations(reg, hosts.take(k), ids.take(k)).rooms.contains_key(
                    ids[k],
                ));
            }
        }
        lemma_after_allocations(reg, h, d);
        let before = after_allocations(reg, h, d);
        assert(!after_allocations(reg, hosts.take(n), ids.take(n)).rooms.contains_key(ids[n]));
        lemma_allocate_wf(before, hosts.last(), ids.last());
        let after = after_allocations(reg, hosts, ids);
        assert forall|i: int| 0 <= i < ids.len() implies {
            &&& #[trigger] after.rooms.contains_key(ids[i])
            &&& after.rooms[ids[i]].host == hosts[i]
        } by {
            if i < n {
                assert(before.rooms.contains_key(d[i]));
                assert(before.rooms[d[i]].host == h[i]);
            }
        }
    }
}

/// Rooms that are opened one after the other, each under an identifier that
/// is free at the time, get pairwise distinct identifiers, which also differ
/// from those of the rooms that were open before. Afterwards the open rooms
/// are those that were open before and those of the run, each with its
/// host; and where the hosts have pairwise distinct addresses, each host is
/// recorded with its own room.
pub proof fn law_allocated_ids_distinct(reg: Registry, hosts: Seq<Connection>, ids: Seq<u32>)
    requires
        reg.wf(),
        hosts.len() == ids.len(),
        each_was_free(reg, hosts, ids),
    ensures
        forall|i: int, j: int| 0 <= i < j < ids.len() ==> ids[i] != ids[j],
        forall|i: int| 0 <= i < ids.len() ==> !reg.rooms.contains_key(#[trigger] ids[i]),
        after_allocations(reg, hosts, ids).wf(),
        after_allocations(reg, hosts, ids).rooms.dom() == reg.rooms.dom().union(ids.to_set()),
        forall|i: int|
            0 <= i < ids.len() ==> {
                &&& #[trigger] after_allocations(reg, hosts, ids).rooms.contains_key(ids[i])
                &&& after_allocations(reg, hosts, ids).rooms[ids[i]].host == hosts[i]
            },
        (forall|i: int, j: int| 0 <= i < j < hosts.len() ==> hosts[i].addr != hosts[j].addr)
            ==> forall|i: int|
            0 <= i < hosts.len() ==> {
                &&& #[trigger] after_allocations(reg, hosts, ids).host_rooms.contains_key(
                    hosts[i].addr,
                )
                &&& after_allocations(reg, hosts, ids).host_rooms[hosts[i].addr] == ids[i]
            },
{
    assert forall|j: int| 0 <= j < ids.len() implies (!reg.rooms.contains_key(#[trigger] ids[j])
        && forall|i: int| 0 <= i < j ==> ids[i] != ids[j]) by {
        let h = hosts.take(j);
        let d = ids.take(j);
        lemma_each_was_free_before(reg, hosts, ids, j);
        lemma_after_allocations(reg, h, d);
        assert(!after_allocations(reg, hosts.take(j), ids.take(j)).rooms.contains_key(ids[j]));
        assert forall|i: int| 0 <= i < j implies ids[i] != ids[j] by {
            assert(after_allocations(reg, h, d).rooms.contains_key(d[i]));
        }
    }
    lemma_after_allocations(reg, hosts, ids);
    lemma_allocated_rooms(reg, hosts, ids);
}

/// A run of allocations in which each room was free when it was opened
/// begins with such a run.
proof fn lemma_each_was_free_before(reg: Registry, hosts: Seq<Connection>, ids: Seq<u32>, n: int)
    requires
        hosts.len() == ids.len(),
        0 <= n <= ids.len(),
        each_was_free(reg, hosts, ids),
    ensures
        each_was_free(reg, hosts.take(n), ids.take(n)),
{
    let h = hosts.take(n);
    let d = ids.take(n);
    assert forall|k: int| 0 <= k < d.len() implies !(#[trigger] after_allocations(
        reg,
        h.take(k),
        d.take(k),
    )).rooms.contains_key(d[k]) by {
        assert(h.take(k) =~= hosts.take(k));
        assert(d.take(k) =~= ids.take(k));
        assert(!after_allocations(reg, hosts.take(k), ids.take(k)).rooms.contains_key(ids[k]));
    }
}

/// After a run of allocations the open rooms are those that were open before
/// and those of the run, and a host whose address no later host of the run
/// has is recorded with its own room.
proof fn lemma_allocated_rooms(reg: Registry, hosts: Seq<Connection>, ids: Seq<u32>)
    requires
        reg.wf(),
        hosts.len() == ids.len(),
        each_was_free(reg, hosts, ids),
    ensures
        after_allocations(reg, hosts, ids).rooms.dom() == reg.rooms.dom().union(ids.to_set()),
        forall|i: int|
            0 <= i < hosts.len() && (forall|j: int|
                i < j < hosts.len() ==> hosts[j].addr != hosts[i].addr) ==> {
                &&& #[trigger] after_allocations(reg, hosts, ids).host_rooms.contains_key(
                    hosts[i].addr,
                )
                &&& after_allocations(reg, hosts, ids).host_rooms[hosts[i].addr] == ids[i]
            },
    decreases hosts.len(),
{
    let after = after_allocations(reg, hosts, ids);
    if hosts.len() == 0 {
        assert(after.rooms.dom() =~= reg.rooms.dom().union(ids.to_set()));
    } else {
        let n = hosts.len() - 1;
        let h = hosts.drop_last();
        let d = ids.drop_last();
        assert(h =~= hosts.take(n));
        assert(d =~= ids.take(n));
        lemma_each_was_free_before(reg, hosts, ids, n);
        lemma_allocated_rooms(reg, h, d);
        let before = after_allocations(reg, h, d);
        assert(ids =~= d.push(ids[n]));
        crate::seq_facts::lemma_take_step_contains(ids, n);
        assert(ids.take(n + 1) =~= ids);
        assert(after.rooms.dom() =~= reg.rooms.dom().union(ids.to_set()));
        assert forall|i: int|
            0 <= i < hosts.len() && (forall|j: int|
                i < j < hosts.len() ==> hosts[j].addr != hosts[i].addr) implies {
            &&& #[trigger] after.host_rooms.contains_key(hosts[i].addr)
            &&& after.host_rooms[hosts[i].addr] == ids[i]
        } by {
            if i < n {
                assert(hosts[n].addr != hosts[i].addr);
                assert forall|j: int| i < j < h.len() implies h[j].addr != h[i].addr by {
                    assert(h[j] == hosts[j]);
                }
                assert(before.host_rooms.contains_key(h[i].addr));
            }
        }
    }
}

/// Once a host has disconnected, every room that it hosted is gone: a
/// request to join it fails with `RoomNotFound`, and its identifier can be
/// claimed again at once. The rooms of the other hosts are as they were.
pub proof fn law_host_disconnect_frees_room(reg: Registry, host: Connection, id: u32)
    requires
        reg.wf(),
        reg.rooms.contains_key(id),
    ensures
        reg.disconnect(host).wf(),
        reg.rooms[id].host.addr == host.addr ==> {
            &&& !reg.disconnect(host).rooms.contains_key(id)
            &&& reg.disconnect(host).resolve(id) == Err::<Connection, Error>(Error::RoomNotFound)
            &&& reg.disconnect(host).claim(id) == Ok::<u32, Error>(id)
            &&& reg.disconnect(host).allocate(host, id).rooms.contains_key(id)
        },
        reg.rooms[id].host.addr != host.addr ==> {
            &&& reg.disconnect(host).rooms.contains_key(id)
            &&& reg.disconnect(host).rooms[id].host == reg.rooms[id].host
            &&& reg.disconnect(host).resolve(id) == reg.resolve(id)
        },
{
    lemma_disconnect_wf(reg, host);
    lemma_vacate_wf(reg, host.addr);
    let after = reg.disconnect(host);
    if reg.rooms[id].host.addr == host.addr {
        lemma_allocate_wf(after, host, id);
    } else {
        assert(reg.vacate(host.addr).rooms.contains_key(id));
    }
}

/// A request for a room whose identifier is taken fails with `RoomIdInUse`,
/// whoever asks; every other request succeeds.
pub proof fn law_claim(reg: Registry, id: u32)
    ensures
        reg.rooms.contains_key(id) <==> reg.claim(id) == Err::<u32, Error>(Error::RoomIdInUse),
        !reg.rooms.contains_key(id) <==> reg.claim(id) == Ok::<u32, Error>(id),
{
}

/// A payload without a target goes to every member of the room except its
/// sender, once: a member receives it if and only if its connection is open
/// and is not that of the sender, and no member receives it twice. A member
/// whose connection is closed is skipped.
pub proof fn law_broadcast(reg: Registry, id: u32, origin: Connection)
    requires
        reg.wf(),
        reg.rooms.contains_key(id),
    ensures
        forall|m: Connection| #[trigger]
            reg.recipients(id, origin, None).contains(m) <==> {
                &&& reg.rooms[id].clients.contains(m)
                &&& reg.alive(m)
                &&& m.handle != origin.handle
            },
        !reg.recipients(id, origin, None).contains(origin),
        reg.recipients(id, origin, None).no_duplicates(),
{
    let clients = reg.rooms[id].clients;
    let test = takes_part(reg.open, origin, None);
    lemma_filter_members(clients, test);
    lemma_filter_no_duplicates(clients, test);
}

/// A payload with a target goes to one member at most: to the open member
/// with the address of the target, if there is one and it is not the
/// sender. It never goes to its sender, even where the target is the
/// sender's own address.
pub proof fn law_targeted(reg: Registry, id: u32, origin: Connection, to: Address)
    requires
        reg.wf(),
        reg.rooms.contains_key(id),
    ensures
        forall|m: Connection| #[trigger]
            reg.recipients(id, origin, Some(to)).contains(m) <==> {
                &&& reg.rooms[id].clients.contains(m)
                &&& reg.alive(m)
                &&& m.handle != origin.handle
                &&& m.addr == to
            },
        !reg.recipients(id, origin, Some(to)).contains(origin),
        reg.recipients(id, origin, Some(to)).len() <= 1,
{
    let clients = reg.rooms[id].clients;
    let test = takes_part(reg.open, origin, Some(to));
    lemma_filter_members(clients, test);
    lemma_one_at_most(reg, clients, test, to);
}

/// Of members of which none is listed twice, at most one passes a test that
/// only open connections with one address pass, since no two open
/// connections have the same address.
proof fn lemma_one_at_most(
    reg: Registry,
    s: Seq<Connection>,
    keep: spec_fn(Connection) -> bool,
    to: Address,
)
    requires
        reg.apart(),
        s.no_duplicates(),
        forall|c: Connection| #[trigger] keep(c) ==> c.addr == to && reg.alive(c),
    ensures
        s.filter(keep).len() <= 1,
    decreases s.len(),
{
    reveal(Seq::filter);
    if s.len() > 0 {
        let init = s.drop_last();
        lemma_one_at_most(reg, init, keep, to);
        if keep(s.last()) && init.filter(keep).len() > 0 {
            let kept = init.filter(keep);
            init.lemma_filter_pred(keep, 0);
            assert(kept.contains(kept[0]));
            init.lemma_filter_contains_rev(keep, kept[0]);
            let j = choose|j: int| 0 <= j < init.len() && init[j] == kept[0];
            let one = s[j];
            let other = s[s.len() - 1];
            assert(one.addr == to && reg.alive(one));
            assert(other.addr == to && reg.alive(other));
            assert(reg.open.contains_key(one.handle) && reg.open.contains_key(other.handle));
            assert(one.handle == other.handle);
            assert(one == other);
        }
    }
}

/// No member is a target of a fan-out twice, and a fan-out with a target has
/// one target at most.
pub proof fn lemma_fanout_once(reg: Registry, id: u32, origin: Connection, to: Option<Address>)
    requires
        reg.wf(),
        reg.rooms.contains_key(id),
    ensures
        reg.recipients(id, origin, to).no_duplicates(),
        to is Some ==> reg.recipients(id, origin, to).len() <= 1,
{
    lemma_filter_no_duplicates(reg.rooms[id].clients, takes_part(reg.open, origin, to));
    match to {
        Some(addr) => law_targeted(reg, id, origin, addr),
        None => {},
    }
}

/// Nobody is told twice that a connection has left.
pub proof fn lemma_mourners_once(reg: Registry, conn: Connection)
    requires
        reg.wf(),
    ensures
        reg.mourners(conn).no_duplicates(),
{
    lemma_vacate_wf(reg, conn.addr);
    let vacated = reg.vacate(conn.addr);
    if vacated.relay_clients.contains_key(conn.addr) {
        lemma_fanout_once(vacated, vacated.relay_clients[conn.addr], conn, None);
    }
}

/// A member is listed once, however often it is bound: a connection that is
/// bound to a room is listed there, and binding it again changes nothing.
pub proof fn law_bound_once(reg: Registry, conn: Connection, id: u32)
    requires
        reg.wf(),
        reg.rooms.contains_key(id),
        reg.rooms[id].clients.contains(conn) || reg.rooms[id].clients.len() < reg.member_limit,
    ensures
        reg.bind(conn, id).wf(),
        reg.bind(conn, id).rooms[id].clients.contains(conn),
        reg.bind(conn, id).rooms[id].clients.no_duplicates(),
        reg.bind(conn, id).relay_clients[conn.addr] == id,
        reg.bind(conn, id).bind(conn, id) == reg.bind(conn, id),
        reg.rooms[id].clients.contains(conn) ==> reg.bind(conn, id).rooms == reg.rooms,
{
    lemma_bind_wf(reg, conn, id);
    let once = reg.bind(conn, id);
    let twice = once.bind(conn, id);
    assert(twice.rooms =~= once.rooms);
    assert(twice.relay_clients =~= once.relay_clients);
    assert(twice =~= once);
    if reg.rooms[id].clients.contains(conn) {
        assert(once.rooms =~= reg.rooms);
    }
}

/// When a relay client disconnects that does not host the room to which it
/// is bound, every other member of that room whose connection is open is
/// told once, and nobody else; the client itself is not told.
pub proof fn law_departure(reg: Registry, conn: Connection)
    requires
        reg.wf(),
        reg.relay_clients.contains_key(conn.addr),
        reg.rooms[reg.relay_clients[conn.addr]].host.addr != conn.addr,
    ensures
        ({
            let room = reg.rooms[reg.relay_clients[conn.addr]];
            &&& reg.rooms.contains_key(reg.relay_clients[conn.addr])
            &&& forall|m: Connection| #[trigger]
                reg.mourners(conn).contains(m) <==> {
                    &&& room.clients.contains(m)
                    &&& reg.alive(m)
                    &&& m.handle != conn.handle
                }
            &&& !reg.mourners(conn).contains(conn)
            &&& reg.mourners(conn).no_duplicates()
            &&& !reg.disconnect(conn).relay_clients.contains_key(conn.addr)
        }),
{
    let id = reg.relay_clients[conn.addr];
    lemma_vacate_wf(reg, conn.addr);
    let vacated = reg.vacate(conn.addr);
    assert(reg.rooms.contains_key(id));
    assert(!reg.hosted(conn.addr).contains(id));
    assert(vacated.relay_clients.contains_key(conn.addr));
    assert(vacated.relay_clients[conn.addr] == id);
    assert(vacated.rooms.contains_key(id));
    assert(vacated.rooms[id] == reg.rooms[id]);
    assert(vacated.open == reg.open);
    law_broadcast(vacated, id, conn);
}

/// A connection that disconnects while it is bound to no room, or to a room
/// that it hosts itself, leaves without anybody being told.
pub proof fn law_silent_departure(reg: Registry, conn: Connection)
    requires
        reg.wf(),
        !reg.relay_clients.contains_key(conn.addr) || reg.rooms[reg.relay_clients[conn.addr]].host.addr
            == conn.addr,
    ensures
        reg.mourners(conn) == Seq::<Connection>::empty(),
{
    if reg.relay_clients.contains_key(conn.addr) {
        let id = reg.relay_clients[conn.addr];
        assert(reg.rooms.contains_key(id));
        assert(reg.hosted(conn.addr).contains(id));
    }
}

} // verus!
