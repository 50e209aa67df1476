//! The life cycle of one accepted connection.
//!
//! A connection waits for the handshake of its transport, is then active
//! until its remote end closes it or sends something that the broker cannot
//! accept, and is closed from then on. The decisions are made here; reading
//! from and writing to the socket is left to the caller, which reports what
//! it read as an [`Event`] and writes what it gets back.

use crate::address::Address;
use crate::matchmaker::dispatch::{law_answer_keeps_invariant, may_draw, views};
use crate::matchmaker::model::{lemma_connect_wf, lemma_disconnect_wf, Connection, Registry};
use crate::matchmaker::registry::{Matchmaker, Outgoing, OutgoingView};
use crate::protocol::matchmaker::{Packet, PacketView};
use vstd::prelude::*;

verus! {

/// Where a connection stands in its life cycle.
#[derive(Clone, Copy, Debug, PartialEq, Eq, Structural)]
pub enum HandlerState {
    /// Accepted, the handshake of the transport is still to come.
    Awaiting,
    /// Registered with the broker under the given connection.
    Active(Connection),
    /// Closed for good.
    Closed,
}

/// What the caller read from the socket of a connection.
pub enum Event {
    /// The handshake of the transport has ended, successfully or not.
    Handshake(bool),
    /// A frame was read: the packet in it, or `None` if it could not be
    /// decoded.
    Frame(Option<Packet>),
    /// The remote end has closed the connection.
    End,
}

/// An [`Event`] as a mathematical value.
pub enum EventView {
    Handshake(bool),
    Frame(Option<PacketView>),
    End,
}

impl View for Event {
    type V = EventView;

    open spec fn view(&self) -> EventView {
        match *self {
            Event::Handshake(ok) => EventView::Handshake(ok),
            Event::Frame(Some(packet)) => EventView::Frame(Some(packet@)),
            Event::Frame(None) => EventView::Frame(None),
            Event::End => EventView::End,
        }
    }
}

/// The outcome of one step of a connection: its next state, the registry
/// after the step, and the packets to write.
pub struct Progress {
    pub state: HandlerState,
    pub registry: Registry,
    pub out: Seq<OutgoingView>,
}

/// The connection `conn` is closed for good: it leaves the registry, and the
/// members of its room are told.
pub open spec fn close(reg: Registry, conn: Connection) -> Progress {
    Progress {
        state: HandlerState::Closed,
        registry: reg.disconnect(conn),
        out: seq![
            OutgoingView {
                targets: reg.mourners(conn),
                packet: PacketView::Disconnected(conn.addr),
            },
        ],
    }
}

/// One step of a connection with the address `addr` in the state `state`,
/// where `drawn` is the room identifier drawn for a request to host.
///
/// - While it waits, a successful handshake registers it, unless a
///   connection with its address is still open: an address stands for one
///   connection at a time. Anything else closes it. Nothing is registered
///   yet, so nothing is taken back.
/// - While it is active, a request is answered. A frame that cannot be
///   decoded, a packet that is no request, and the end of the stream close
///   it. Another report of the handshake changes nothing.
/// - Once closed, it stays closed, and nothing happens.
pub open spec fn advance(
    state: HandlerState,
    addr: Address,
    reg: Registry,
    event: EventView,
    drawn: Option<u32>,
) -> Progress {
    let idle = Progress { state, registry: reg, out: Seq::empty() };
    match state {
        HandlerState::Awaiting => match event {
            EventView::Handshake(true) if reg.admits(addr) => Progress {
                state: HandlerState::Active(Connection { handle: reg.next_handle, addr }),
                registry: reg.connect(addr),
                out: Seq::empty(),
            },
            _ => Progress { state: HandlerState::Closed, ..idle },
        },
        HandlerState::Active(conn) => match event {
            EventView::Handshake(_) => idle,
            EventView::Frame(Some(packet)) => {
                let answer = reg.answer(conn, packet, drawn);
                match answer.out {
                    Ok(out) => Progress { state, registry: answer.next, out },
                    Err(_) => close(reg, conn),
                }
            },
            EventView::Frame(None) => close(reg, conn),
            EventView::End => close(reg, conn),
        },
        HandlerState::Closed => idle,
    }
}

/// The handler of one accepted connection.
pub struct Handler {
    addr: Address,
    state: HandlerState,
}

impl Handler {
    /// The address of the remote end.
    pub closed spec fn spec_addr(&self) -> Address {
        self.addr
    }

    /// The state of the connection.
    pub closed spec fn spec_state(&self) -> HandlerState {
        self.state
    }

    /// The handler of a connection that was accepted from `addr`.
    pub fn new(addr: Address) -> (handler: Handler)
        ensures
            handler.spec_addr() == addr,
            handler.spec_state() == HandlerState::Awaiting,
    {
        Handler { addr, state: HandlerState::Awaiting }
    }

    /// The address of the remote end.
    #[verifier::when_used_as_spec(spec_addr)]
    pub fn addr(&self) -> (addr: Address)
        ensures
            addr == self.spec_addr(),
    {
        self.addr
    }

    /// The state of the connection.
    #[verifier::when_used_as_spec(spec_state)]
    pub fn state(&self) -> (state: HandlerState)
        ensures
            state == self.spec_state(),
    {
        self.state
    }

    /// Closes the connection `conn` for good.
    fn close(&mut self, mm: &mut Matchmaker, conn: Connection) -> (out: Vec<Outgoing>)
        requires
            old(mm).wf(),
        ensures
            final(mm).wf(),
            final(self).spec_addr() == old(self).spec_addr(),
            final(self).spec_state() == close(old(mm)@, conn).state,
            final(mm)@ == close(old(mm)@, conn).registry,
            views(out@) == close(old(mm)@, conn).out,
    {
        let notice = mm.disconnect(conn);
        self.state = HandlerState::Closed;
        let mut out: Vec<Outgoing> = Vec::new();
        out.push(notice);
        assert(views(out@) =~= close(old(mm)@, conn).out);
        out
    }

    /// Takes one step with the event `event`, where `drawn` is the room
    /// identifier drawn for a request to host, and returns the packets to
    /// write.
    pub fn step_drawn(&mut self, mm: &mut Matchmaker, event: Event, drawn: Option<u32>) -> (out:
        Vec<Outgoing>)
        requires
            old(mm).wf(),
        ensures
            final(mm).wf(),
            final(self).spec_addr() == old(self).spec_addr(),
            final(self).spec_state() == advance(
                old(self).spec_state(),
                old(self).spec_addr(),
                old(mm)@,
                event@,
                drawn,
            ).state,
            final(mm)@ == advance(
                old(self).spec_state(),
                old(self).spec_addr(),
                old(mm)@,
                event@,
                drawn,
            ).registry,
            views(out@) == advance(
                old(self).spec_state(),
                old(self).spec_addr(),
                old(mm)@,
                event@,
                drawn,
            ).out,
    {
        let ghost expected = advance(self.state, self.addr, mm@, event@, drawn);
        match self.state {
            HandlerState::Awaiting => {
                let registered = match event {
                    Event::Handshake(true) => mm.connect(self.addr),
                    _ => None,
                };
                match registered {
                    Some(conn) => {
                        self.state = HandlerState::Active(conn);
                    },
                    None => {
                        self.state = HandlerState::Closed;
                    },
                }
                let out: Vec<Outgoing> = Vec::new();
                assert(views(out@) =~= expected.out);
                out
            },
            HandlerState::Active(conn) => {
                match event {
                    Event::Handshake(_) => {
                        let out: Vec<Outgoing> = Vec::new();
                        assert(views(out@) =~= expected.out);
                        out
                    },
                    Event::Frame(Some(packet)) => {
                        match mm.dispatch(conn, packet, drawn) {
                            Ok(out) => out,
                            Err(_) => self.close(mm, conn),
                        }
                    },
                    Event::Frame(None) => self.close(mm, conn),
                    Event::End => self.close(mm, conn),
                }
            },
            HandlerState::Closed => {
                let out: Vec<Outgoing> = Vec::new();
                assert(views(out@) =~= expected.out);
                out
            },
        }
    }

    /// Takes one step with the event `event` and returns the packets to
    /// write. For a request to host, a room identifier is drawn at random
    /// first.
    ///
    /// The step is that of [`Handler::step_drawn`] for some outcome of the
    /// draw; for every event but a request to host the draw plays no part.
    /// For a request to host an identifier is drawn for certain as long as
    /// none that can be drawn is taken, and none once all of them are taken.
    pub fn step(&mut self, mm: &mut Matchmaker, event: Event) -> (out: Vec<Outgoing>)
        requires
            old(mm).wf(),
        ensures
            final(mm).wf(),
            final(self).spec_addr() == old(self).spec_addr(),
            exists|drawn: Option<u32>|
                {
                    let expected = #[trigger] advance(
                        old(self).spec_state(),
                        old(self).spec_addr(),
                        old(mm)@,
                        event@,
                        drawn,
                    );
                    &&& may_draw(old(mm)@, drawn)
                    &&& old(mm)@.exhausted() ==> drawn is None
                    &&& (event@ matches EventView::Frame(Some(PacketView::Host))
                        && old(mm)@.untaken()) ==> drawn is Some
                    &&& final(self).spec_state() == expected.state
                    &&& final(mm)@ == expected.registry
                    &&& views(out@) == expected.out
                },
            !(event@ matches EventView::Frame(Some(PacketView::Host))) ==> {
                let expected = advance(
                    old(self).spec_state(),
                    old(self).spec_addr(),
                    old(mm)@,
                    event@,
                    None,
                );
                &&& final(self).spec_state() == expected.state
                &&& final(mm)@ == expected.registry
                &&& views(out@) == expected.out
            },
    {
        let drawn = match &event {
            Event::Frame(Some(Packet::Host)) => mm.find_free_room_id(),
            _ => None,
        };
        let out = self.step_drawn(mm, event, drawn);
        assert(final(mm)@ == advance(
            old(self).spec_state(),
            old(self).spec_addr(),
            old(mm)@,
            event@,
            drawn,
        ).registry);
        out
    }
}

/// Every step of a connection keeps the invariant of the registry: among
/// other things no two open connections ever share an address, and no room
/// ever lists a connection twice.
pub proof fn law_step_keeps_invariant(
    state: HandlerState,
    addr: Address,
    reg: Registry,
    event: EventView,
    drawn: Option<u32>,
)
    requires
        reg.wf(),
    ensures
        advance(state, addr, reg, event, drawn).registry.wf(),
{
    match state {
        HandlerState::Awaiting => {
            if reg.admits(addr) {
                lemma_connect_wf(reg, addr);
            }
        },
        HandlerState::Active(conn) => {
            lemma_disconnect_wf(reg, conn);
            match event {
                EventView::Frame(Some(packet)) => {
                    law_answer_keeps_invariant(reg, conn, packet, drawn);
                },
                _ => {},
            }
        },
        HandlerState::Closed => {},
    }
}

/// A closed connection stays closed: no event changes the registry or makes
/// the broker write anything.
pub proof fn law_closed_is_final(addr: Address, reg: Registry, event: EventView, drawn: Option<
    u32,
>)
    ensures
        advance(HandlerState::Closed, addr, reg, event, drawn) == (Progress {
            state: HandlerState::Closed,
            registry: reg,
            out: Seq::empty(),
        }),
{
}

/// An active connection leaves the registry in the very step in which it is
/// closed, and only then.
pub proof fn law_closing_disconnects(
    conn: Connection,
    reg: Registry,
    event: EventView,
    drawn: Option<u32>,
)
    requires
        reg.wf(),
    ensures
        ({
            let next = advance(HandlerState::Active(conn), conn.addr, reg, event, drawn);
            &&& next.state == HandlerState::Closed || next.state == HandlerState::Active(conn)
            &&& next.state == HandlerState::Closed ==> next == close(reg, conn)
                && !next.registry.alive(conn)
        }),
{
    lemma_disconnect_wf(reg, conn);
}

} // verus!
