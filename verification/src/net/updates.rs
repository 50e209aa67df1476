//! What a participant sends of its own painting, and when.
//!
//! The position of the cursor and the points of a stroke are not sent as
//! they come, but gathered and sent at a fixed interval.

use crate::net::peer::{relay, spec_to_wire, Outbound, OutboundView, Peer, Point, StrokePoint};
use crate::net::peer::outbound_views;
use crate::protocol::client as cl;
use vstd::prelude::*;

verus! {

/// The time between two updates, in milliseconds.
pub const TIME_PER_UPDATE: u32 = 50;

/// A timer that comes due at a fixed interval. Time that has passed beyond
/// a whole number of intervals is carried over to the next tick, so that
/// the timer does not drift.
pub struct Timer {
    interval: u32,
    lag: u32,
    last_tick: u64,
}

/// A [`Timer`] as a mathematical value. Times are in milliseconds.
pub struct TimerView {
    /// The time between two updates.
    pub interval: u32,
    /// The time that was carried over at the last tick.
    pub lag: u32,
    /// The time of the last tick.
    pub last_tick: u64,
}

impl TimerView {
    /// The invariant of the timer: the interval is not zero, and less than
    /// an interval is carried over.
    pub open spec fn wf(self) -> bool {
        0 <= self.lag < self.interval
    }

    /// The time that has passed since the last tick and is not accounted
    /// for yet, at the time `now`. A clock that runs backwards counts as one
    /// that stands still.
    pub open spec fn pending(self, now: u64) -> int {
        self.lag + if now >= self.last_tick {
            now - self.last_tick
        } else {
            0
        }
    }

    /// How often the timer has come due at the time `now`.
    pub open spec fn due(self, now: u64) -> int {
        self.pending(now) / (self.interval as int)
    }

    /// The timer after a tick at the time `now`.
    pub open spec fn after_tick(self, now: u64) -> TimerView {
        TimerView {
            interval: self.interval,
            lag: (self.pending(now) % (self.interval as int)) as u32,
            last_tick: if now >= self.last_tick {
                now
            } else {
                self.last_tick
            },
        }
    }
}

impl View for Timer {
    type V = TimerView;

    closed spec fn view(&self) -> TimerView {
        TimerView { interval: self.interval, lag: self.lag, last_tick: self.last_tick }
    }
}

impl Timer {
    /// A timer with the given interval that starts at the time `now`.
    pub fn new(interval: u32, now: u64) -> (timer: Timer)
        requires
            interval > 0,
        ensures
            timer@.wf(),
            timer@ == (TimerView { interval, lag: 0, last_tick: now }),
    {
        Timer { interval, lag: 0, last_tick: now }
    }

    /// Ticks the timer at the time `now`, and returns how often it has come
    /// due since the last tick.
    pub fn tick(&mut self, now: u64) -> (due: u64)
        requires
            old(self)@.wf(),
        ensures
            final(self)@.wf(),
            final(self)@ == old(self)@.after_tick(now),
            due == old(self)@.due(now),
    {
        let elapsed: u64 = if now >= self.last_tick { now - self.last_tick } else { 0 };
        let interval = self.interval as u64;
        let whole = elapsed / interval;
        let rest = elapsed % interval + self.lag as u64;
        let ghost pending = old(self)@.pending(now);
        assert(pending == whole * interval + rest) by (nonlinear_arith)
            requires
                pending == self.lag + elapsed,
                interval > 0,
                whole == elapsed / interval,
                rest == elapsed % interval + self.lag,
        ;
        assert(0 <= rest < 2 * interval);
        let (extra, lag): (u64, u64) = if rest >= interval {
            (1, rest - interval)
        } else {
            (0, rest)
        };
        assert(pending == (whole + extra) * interval + lag) by (nonlinear_arith)
            requires
                pending == whole * interval + rest,
                rest == extra * interval + lag,
        ;
        proof {
            vstd::arithmetic::div_mod::lemma_fundamental_div_mod_converse(
                pending,
                interval as int,
                (whole + extra) as int,
                lag as int,
            );
        }
        assert(whole + extra <= u64::MAX) by (nonlinear_arith)
            requires
                pending == (whole + extra) * interval + lag,
                pending <= u64::MAX + interval - 1,
                interval >= 1,
                lag >= 0,
        ;
        self.lag = lag as u32;
        if now >= self.last_tick {
            self.last_tick = now;
        }
        whole + extra
    }
}

/// The packets of `rounds` updates, one after the other: in each update the
/// position of the cursor, if there is one to send, and in the first update
/// the stroke, if there is one to send.
pub open spec fn updates(rounds: nat, cursor: Option<OutboundView>, stroke: Option<OutboundView>)
    -> Seq<OutboundView>
    decreases rounds,
{
    if rounds == 0 {
        Seq::empty()
    } else {
        let first = match cursor {
            Some(packet) => seq![packet],
            None => Seq::empty(),
        } + match stroke {
            Some(packet) => seq![packet],
            None => Seq::empty(),
        };
        first + updates((rounds - 1) as nat, cursor, None)
    }
}

/// The packet that tells all participants of the stroke `points`, if there
/// is a point in it.
pub open spec fn stroke_packet(points: Seq<StrokePoint>) -> Option<OutboundView> {
    if points.len() > 0 {
        Some(
            relay(None, cl::PacketView::Stroke(points.map_values(|p: StrokePoint| spec_to_wire(p)))),
        )
    } else {
        None
    }
}

/// The packet that tells all participants where the cursor is, if it has
/// moved.
pub open spec fn cursor_packet(cursor: Option<(Point, i16)>) -> Option<OutboundView> {
    match cursor {
        Some((point, brush_size)) => Some(
            relay(None, cl::PacketView::Cursor(point.x, point.y, brush_size)),
        ),
        None => None,
    }
}

/// The painting of a participant that is still to be sent.
pub struct Updates {
    update_timer: Timer,
    stroke_buffer: Vec<StrokePoint>,
}

/// [`Updates`] as a mathematical value.
pub struct UpdatesView {
    pub timer: TimerView,
    /// The points of the stroke that were not sent yet.
    pub stroke: Seq<StrokePoint>,
}

impl View for Updates {
    type V = UpdatesView;

    closed spec fn view(&self) -> UpdatesView {
        UpdatesView { timer: self.update_timer@, stroke: self.stroke_buffer@ }
    }
}

impl Updates {
    /// Nothing to send, and a timer that starts at the time `now` and comes
    /// due every [`TIME_PER_UPDATE`] milliseconds.
    pub fn new(now: u64) -> (updates: Updates)
        ensures
            updates@.timer.wf(),
            updates@ == (UpdatesView {
                timer: TimerView { interval: TIME_PER_UPDATE, lag: 0, last_tick: now },
                stroke: Seq::empty(),
            }),
    {
        Updates { update_timer: Timer::new(TIME_PER_UPDATE, now), stroke_buffer: Vec::new() }
    }

    /// Notes a point of the stroke that the participant is drawing.
    pub fn stroke(&mut self, point: StrokePoint)
        ensures
            final(self)@ == (UpdatesView { stroke: old(self)@.stroke.push(point), ..old(self)@ }),
    {
        self.stroke_buffer.push(point);
    }

    /// Ticks the timer at the time `now`, and returns what is to be sent and
    /// how often the timer has come due. Where `cursor` is given, the cursor
    /// has moved to that position, with that width of the brush.
    ///
    /// Nothing is sent unless the timer has come due. Then the cursor is
    /// sent once for each time that it has come due, and the stroke that was
    /// gathered is sent once, after the first position of the cursor.
    pub fn flush(&mut self, peer: &Peer, now: u64, cursor: Option<(Point, i16)>) -> (r: (
        Vec<Outbound>,
        u64,
    ))
        requires
            old(self)@.timer.wf(),
        ensures
            final(self)@.timer.wf(),
            final(self)@.timer == old(self)@.timer.after_tick(now),
            r.1 == old(self)@.timer.due(now),
            final(self)@.stroke == if r.1 > 0 {
                Seq::<StrokePoint>::empty()
            } else {
                old(self)@.stroke
            },
            outbound_views(r.0@) == updates(
                r.1 as nat,
                cursor_packet(cursor),
                stroke_packet(old(self)@.stroke),
            ),
    {
        let due = self.update_timer.tick(now);
        let mut out: Vec<Outbound> = Vec::new();
        let ghost moved = cursor_packet(cursor);
        let ghost drawn = stroke_packet(old(self)@.stroke);
        let mut round: u64 = 0;
        assert(outbound_views(out@) =~= Seq::<OutboundView>::empty());
        while round < due
            invariant
                round <= due,
                moved == cursor_packet(cursor),
                drawn == stroke_packet(old(self)@.stroke),
                self@.timer == old(self)@.timer.after_tick(now),
                self@.stroke == if round > 0 {
                    Seq::<StrokePoint>::empty()
                } else {
                    old(self)@.stroke
                },
                outbound_views(out@) + updates(
                    (due - round) as nat,
                    moved,
                    if round == 0 {
                        drawn
                    } else {
                        None
                    },
                ) == updates(due as nat, moved, drawn),
            decreases due - round,
        {
            let ghost before = outbound_views(out@);
            let ghost rest = updates((due - round - 1) as nat, moved, None);
            let ghost stroke = if round == 0 { drawn } else { None };
            match cursor {
                Some((point, brush_size)) => {
                    out.push(peer.send_cursor(point, brush_size));
                },
                None => {},
            }
            if self.stroke_buffer.len() > 0 {
                out.push(peer.send_stroke(&self.stroke_buffer));
                self.stroke_buffer = Vec::new();
            }
            proof {
                let first = match moved {
                    Some(packet) => seq![packet],
                    None => Seq::empty(),
                } + match stroke {
                    Some(packet) => seq![packet],
                    None => Seq::empty(),
                };
                assert(outbound_views(out@) =~= before + first);
                assert(updates((due - round) as nat, moved, stroke) == first + rest);
                assert((before + first) + rest =~= before + (first + rest));
            }
            round += 1;
        }
        assert(updates(0, moved, None) =~= Seq::<OutboundView>::empty());
        assert(outbound_views(out@) + Seq::<OutboundView>::empty() =~= outbound_views(out@));
        (out, due)
    }
}

} // verus!
