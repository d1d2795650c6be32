//! What a side of the station puts out: frames, link events and reports.

use crate::model::{
    plain_log, ConnectionPhase, ConnectionState, ConnectionView, Direction, EventView, LogCategory,
    LogEntry, LogView, Moment, RuntimeEvent, Severity, Side,
};
use crate::protocol::frame::{known_encodes, unit_octets};
use crate::protocol::message::{Asdu, AsduView};
use crate::protocol::wire::{
    after_send, describe, wire_line, LinkEvent, LinkEventView, LinkSession, LinkState,
};
use crate::text::texts;
use vstd::prelude::*;

verus! {

/// Something for the outside to do.
#[derive(Debug, Clone)]
pub enum Output {
    /// Write a frame to the connection.
    Transmit(Vec<u8>),
    /// Log an event of the link.
    Link { at: u64, event: LinkEvent },
    /// Pass a report on.
    Event(RuntimeEvent),
}

#[verifier::ext_equal]
pub enum OutputView {
    Transmit(Seq<u8>),
    Link { at: u64, event: LinkEventView },
    Event(EventView),
}

impl View for Output {
    type V = OutputView;

    open spec fn view(&self) -> OutputView {
        match self {
            Output::Transmit(octets) => OutputView::Transmit(octets@),
            Output::Link { at, event } => OutputView::Link { at: *at, event: event@ },
            Output::Event(event) => OutputView::Event(event@),
        }
    }
}

pub open spec fn output_views(outputs: Seq<Output>) -> Seq<OutputView> {
    outputs.map_values(|output: Output| output@)
}

/// One side with what it shows and puts out.
#[derive(Debug, Clone)]
pub struct Desk {
    pub side: Side,
    pub view: ConnectionView,
    pub outputs: Vec<Output>,
}

#[verifier::ext_equal]
pub struct DeskState {
    pub side: Side,
    pub view: ConnectionState,
    pub outputs: Seq<OutputView>,
}

impl View for Desk {
    type V = DeskState;

    open spec fn view(&self) -> DeskState {
        DeskState { side: self.side, view: self.view@, outputs: output_views(self.outputs@) }
    }
}

pub open spec fn event_direction(event: LinkEventView) -> Direction {
    match event {
        LinkEventView::Numbered { direction, .. } => direction,
        LinkEventView::Supervisory { direction, .. } => direction,
        LinkEventView::Unnumbered { direction, .. } => direction,
        LinkEventView::DataIgnored => Direction::Internal,
    }
}

impl DeskState {
    pub open spec fn put(self, output: OutputView) -> DeskState {
        DeskState { outputs: self.outputs.push(output), ..self }
    }

    pub open spec fn emit(self, event: EventView) -> DeskState {
        self.put(OutputView::Event(event))
    }

    pub open spec fn log(
        self,
        now: Moment,
        direction: Direction,
        severity: Severity,
        category: LogCategory,
        summary: Seq<char>,
    ) -> DeskState {
        self.emit(
            EventView::Log(
                plain_log(now.wall_ms, self.side, direction, severity, category, summary),
            ),
        )
    }

    /// Shows the connection as it is.
    pub open spec fn show(self) -> DeskState {
        self.emit(EventView::Connection { side: self.side, view: self.view })
    }

    /// Shows the connection in a phase.
    pub open spec fn enter(self, phase: ConnectionPhase, detail: Seq<char>) -> DeskState {
        DeskState { view: ConnectionState { phase, detail, ..self.view }, ..self }.show()
    }

    /// Logs an event of the link and shows when something last came or went.
    pub open spec fn record(self, event: LinkEventView, now: Moment) -> DeskState {
        let view = match event_direction(event) {
            Direction::Incoming => ConnectionState { last_rx_ms: Some(now.wall_ms), ..self.view },
            Direction::Outgoing => ConnectionState { last_tx_ms: Some(now.wall_ms), ..self.view },
            Direction::Internal => self.view,
        };
        DeskState { view, ..self }.put(OutputView::Link { at: now.wall_ms, event }).show()
    }

    /// Logs events of the link, in their order.
    pub open spec fn record_all(self, events: Seq<LinkEventView>, now: Moment) -> DeskState
        decreases events.len(),
    {
        if events.len() == 0 {
            self
        } else {
            self.record_all(events.drop_last(), now).record(events.last(), now)
        }
    }

    pub open spec fn transmit_all(self, frames: Seq<Seq<u8>>) -> DeskState
        decreases frames.len(),
    {
        if frames.len() == 0 {
            self
        } else {
            self.transmit_all(frames.drop_last()).put(OutputView::Transmit(frames.last()))
        }
    }
}

/// A side with its link after a unit was to be sent, and why it was not.
pub open spec fn after_send_unit(
    desk: DeskState,
    link: LinkState,
    asdu: AsduView,
    now: Moment,
) -> (DeskState, LinkState, Option<Seq<char>>) {
    let (after, outcome) = after_send(link, asdu, now.tick_ms);
    match outcome {
        Err(text) => (desk, after, Some(text)),
        Ok((octets, event)) => (
            desk.put(OutputView::Transmit(octets)).record(event, now),
            after,
            None,
        ),
    }
}

/// A side with its link after units were to be sent one after the other, up to
/// the first that was not.
pub open spec fn after_send_units(
    desk: DeskState,
    link: LinkState,
    units: Seq<AsduView>,
    now: Moment,
) -> (DeskState, LinkState, Option<Seq<char>>)
    decreases units.len(),
{
    if units.len() == 0 {
        (desk, link, None)
    } else {
        let (mid_desk, mid_link, error) = after_send_units(desk, link, units.drop_last(), now);
        match error {
            Some(text) => (mid_desk, mid_link, Some(text)),
            None => after_send_unit(mid_desk, mid_link, units.last(), now),
        }
    }
}

pub open spec fn error_view(result: Result<(), String>) -> Option<Seq<char>> {
    match result {
        Ok(_) => None,
        Err(text) => Some(text@),
    }
}

impl Desk {
    pub fn new(side: Side, view: ConnectionView) -> (result: Desk)
        ensures
            result@ == (DeskState { side, view: view@, outputs: Seq::empty() }),
    {
        let result = Desk { side, view, outputs: Vec::new() };
        assert(output_views(result.outputs@) =~= Seq::<OutputView>::empty());
        result
    }

    /// Takes what was put out.
    pub fn take_outputs(&mut self) -> (result: Vec<Output>)
        ensures
            output_views(result@) == old(self)@.outputs,
            final(self)@ == (DeskState { outputs: Seq::empty(), ..old(self)@ }),
    {
        let mut taken: Vec<Output> = Vec::new();
        taken.append(&mut self.outputs);
        assert(output_views(taken@) =~= old(self)@.outputs);
        assert(output_views(self.outputs@) =~= Seq::<OutputView>::empty());
        taken
    }

    fn put(&mut self, output: Output)
        ensures
            final(self)@ == old(self)@.put(output@),
    {
        let ghost before = self.outputs@;
        self.outputs.push(output);
        assert(output_views(self.outputs@) =~= output_views(before).push(output@));
    }

    pub fn transmit(&mut self, octets: Vec<u8>)
        ensures
            final(self)@ == old(self)@.put(OutputView::Transmit(octets@)),
    {
        self.put(Output::Transmit(octets));
    }

    pub fn emit(&mut self, event: RuntimeEvent)
        ensures
            final(self)@ == old(self)@.emit(event@),
    {
        self.put(Output::Event(event));
    }

    pub fn log(
        &mut self,
        now: Moment,
        direction: Direction,
        severity: Severity,
        category: LogCategory,
        summary: String,
    )
        ensures
            final(self)@ == old(self)@.log(now, direction, severity, category, summary@),
    {
        let entry = LogEntry::at(now.wall_ms, self.side, direction, severity, category, summary);
        self.emit(RuntimeEvent::Log(entry));
    }

    pub fn show(&mut self)
        ensures
            final(self)@ == old(self)@.show(),
    {
        let view = self.view.copy();
        let side = self.side;
        self.emit(RuntimeEvent::Connection { side, view });
    }

    pub fn enter(&mut self, phase: ConnectionPhase, detail: String)
        ensures
            final(self)@ == old(self)@.enter(phase, detail@),
    {
        self.view.phase = phase;
        self.view.detail = detail;
        self.show();
    }

    pub fn record(&mut self, event: LinkEvent, now: Moment)
        ensures
            final(self)@ == old(self)@.record(event@, now),
    {
        let direction = match &event {
            LinkEvent::Numbered { direction, .. } => *direction,
            LinkEvent::Supervisory { direction, .. } => *direction,
            LinkEvent::Unnumbered { direction, .. } => *direction,
            LinkEvent::DataIgnored => Direction::Internal,
        };
        match direction {
            Direction::Incoming => {
                self.view.last_rx_ms = Some(now.wall_ms);
            },
            Direction::Outgoing => {
                self.view.last_tx_ms = Some(now.wall_ms);
            },
            Direction::Internal => {},
        }
        self.put(Output::Link { at: now.wall_ms, event });
        self.show();
    }

    pub fn record_all(&mut self, events: Vec<LinkEvent>, now: Moment)
        ensures
            final(self)@ == old(self)@.record_all(
                crate::protocol::wire::event_views(events@),
                now,
            ),
    {
        let ghost views = crate::protocol::wire::event_views(events@);
        let ghost before = self@;
        let mut rest = reverse_events(events);
        let ghost mut done: int = 0;
        assert(views.take(0) =~= Seq::<LinkEventView>::empty());
        while rest.len() > 0
            invariant
                0 <= done <= views.len(),
                rest@.len() == views.len() - done,
                forall|i: int|
                    0 <= i < rest@.len() ==> (#[trigger] rest@[i])@ == views[views.len() - 1 - i],
                self@ == before.record_all(views.take(done), now),
            decreases rest@.len(),
        {
            let ghost last = rest@.len() - 1;
            assert(rest@[last]@ == views[done]);
            let event = rest.pop().unwrap();
            proof {
                assert(views.take(done + 1).drop_last() =~= views.take(done));
                assert(views.take(done + 1).last() == event@);
            }
            self.record(event, now);
            proof {
                done = done + 1;
            }
        }
        assert(views.take(done) =~= views);
    }

    pub fn transmit_all(&mut self, frames: Vec<Vec<u8>>)
        ensures
            final(self)@ == old(self)@.transmit_all(
                crate::protocol::wire::octet_views(frames@),
            ),
    {
        let ghost views = crate::protocol::wire::octet_views(frames@);
        let ghost before = self@;
        let mut index: usize = 0;
        assert(views.take(0) =~= Seq::<Seq<u8>>::empty());
        while index < frames.len()
            invariant
                index <= frames@.len(),
                views == crate::protocol::wire::octet_views(frames@),
                self@ == before.transmit_all(views.take(index as int)),
            decreases frames.len() - index,
        {
            proof {
                assert(views.take(index + 1).drop_last() =~= views.take(index as int));
                assert(views.take(index + 1).last() == frames@[index as int]@);
            }
            let octets = crate::protocol::message::copy_octets(frames[index].as_slice());
            self.put(Output::Transmit(octets));
            index += 1;
        }
        assert(views.take(index as int) =~= views);
    }

    /// Sends a unit, and logs it.
    pub fn send_unit(&mut self, link: &mut LinkSession, asdu: Asdu, now: Moment) -> (result: Result<
        (),
        String,
    >)
        requires
            old(link)@.consistent(),
        ensures
            (final(self)@, final(link)@, error_view(result)) == after_send_unit(
                old(self)@,
                old(link)@,
                asdu@,
                now,
            ),
            final(link)@.consistent(),
            old(link)@.send_refusal() is None && asdu@.valid() && asdu@.objects is Known
                ==> known_encodes(asdu@, asdu@.objects->Known_0, unit_octets(asdu@)),
    {
        match link.send_asdu(asdu, now.tick_ms) {
            Err(text) => Err(text),
            Ok(sent) => {
                self.put(Output::Transmit(sent.octets));
                self.record(sent.event, now);
                Ok(())
            },
        }
    }

    /// Sends units one after the other, up to the first that cannot be sent.
    pub fn send_units(&mut self, link: &mut LinkSession, units: Vec<Asdu>, now: Moment) -> (result:
        Result<(), String>)
        requires
            old(link)@.consistent(),
        ensures
            (final(self)@, final(link)@, error_view(result)) == after_send_units(
                old(self)@,
                old(link)@,
                crate::protocol::station::unit_views(units@),
                now,
            ),
            final(link)@.consistent(),
    {
        let ghost views = crate::protocol::station::unit_views(units@);
        let ghost desk = self@;
        let ghost first = link@;
        let mut index: usize = 0;
        assert(views.take(0) =~= Seq::<AsduView>::empty());
        while index < units.len()
            invariant
                index <= units@.len(),
                link@.consistent(),
                desk == old(self)@,
                first == old(link)@,
                views == crate::protocol::station::unit_views(units@),
                (self@, link@, None::<Seq<char>>) == after_send_units(
                    desk,
                    first,
                    views.take(index as int),
                    now,
                ),
            decreases units.len() - index,
        {
            proof {
                assert(views.take(index + 1).drop_last() =~= views.take(index as int));
                assert(views.take(index + 1).last() == units@[index as int]@);
            }
            if let Err(text) = self.send_unit(link, units[index].copy(), now) {
                proof {
                    lemma_failed_prefix(desk, first, views, index + 1, now);
                }
                return Err(text);
            }
            index += 1;
        }
        assert(views.take(index as int) =~= views);
        Ok(())
    }
}

proof fn lemma_failed_prefix(
    desk: DeskState,
    link: LinkState,
    units: Seq<AsduView>,
    length: int,
    now: Moment,
)
    requires
        0 <= length <= units.len(),
        after_send_units(desk, link, units.take(length), now).2 is Some,
    ensures
        after_send_units(desk, link, units, now) == after_send_units(
            desk,
            link,
            units.take(length),
            now,
        ),
    decreases units.len() - length,
{
    if length < units.len() {
        assert(units.take(length + 1).drop_last() =~= units.take(length));
        lemma_failed_prefix(desk, link, units, length + 1, now);
    } else {
        assert(units.take(length) =~= units);
    }
}

fn reverse_events(events: Vec<LinkEvent>) -> (result: Vec<LinkEvent>)
    ensures
        result@ == events@.reverse(),
{
    let mut rest = events;
    let mut reversed: Vec<LinkEvent> = Vec::new();
    let ghost all = rest@;
    while rest.len() > 0
        invariant
            rest@.len() <= all.len(),
            rest@ == all.take(rest@.len() as int),
            reversed@ == all.skip(rest@.len() as int).reverse(),
        decreases rest@.len(),
    {
        let event = rest.pop().unwrap();
        reversed.push(event);
        assert(rest@ =~= all.take(rest@.len() as int));
        assert(reversed@ =~= all.skip(rest@.len() as int).reverse());
    }
    assert(reversed@ =~= all.reverse());
    reversed
}

/// The log entry of an event of the link.
pub open spec fn link_log(
    side: Side,
    at: u64,
    event: LinkEventView,
    floats: Seq<Seq<char>>,
) -> LogView {
    let line = wire_line(event, floats);
    LogView {
        timestamp_ms: at,
        side,
        direction: line.direction,
        severity: line.severity,
        category: line.category,
        summary: line.summary,
        details: line.details,
        protocol: line.protocol,
    }
}

/// Makes the log entry of an event of the link, with the renderings of the
/// floats that it holds.
pub fn log_link_event(side: Side, at: u64, event: &LinkEvent, floats: &Vec<String>) -> (result:
    LogEntry)
    requires
        event@.describable(),
    ensures
        result@ == link_log(side, at, event@, texts(floats@)),
{
    let line = describe(event, floats);
    LogEntry::at(at, side, line.direction, line.severity, line.category, line.summary).with_details(
        line.details,
    ).with_protocol(line.protocol)
}

// ---------------------------------------------------------------------------
// What a step puts out.
/// The one log entry that a step put out, where it put out that and nothing else.
pub open spec fn added_line(before: DeskState, after: DeskState) -> Option<LogView> {
    if after.outputs.len() == before.outputs.len() + 1 && after.outputs.drop_last()
        == before.outputs && after.side == before.side && after.view == before.view {
        match after.outputs.last() {
            OutputView::Event(EventView::Log(entry)) => Some(entry),
            _ => None,
        }
    } else {
        None
    }
}

/// A log entry is of the side that puts it out and of the moment, and says no
/// more than it is given.
pub proof fn law_entries_are_of_their_side(
    desk: DeskState,
    now: Moment,
    direction: Direction,
    severity: Severity,
    category: LogCategory,
    summary: Seq<char>,
)
    ensures
        added_line(desk, desk.log(now, direction, severity, category, summary)) == Some(
            (LogView {
                timestamp_ms: now.wall_ms,
                side: desk.side,
                direction,
                severity,
                category,
                summary,
                details: Seq::empty(),
                protocol: None,
            }),
        ),
{
    let after = desk.log(now, direction, severity, category, summary);
    assert(after.outputs.drop_last() =~= desk.outputs);
}

/// A frame that came or went is logged as of the moment, and shown as the last
/// that came or the last that went; only that time changes.
pub proof fn law_traffic_is_shown(desk: DeskState, event: LinkEventView, now: Moment)
    ensures
        ({
            let after = desk.record(event, now);
            let direction = wire_line(event, Seq::empty()).direction;
            &&& after.outputs == desk.outputs.push(OutputView::Link { at: now.wall_ms, event }).push(
                OutputView::Event(EventView::Connection { side: desk.side, view: after.view }),
            )
            &&& after.side == desk.side
            &&& after.view == (ConnectionState {
                last_rx_ms: if direction is Incoming {
                    Some(now.wall_ms)
                } else {
                    desk.view.last_rx_ms
                },
                last_tx_ms: if direction is Outgoing {
                    Some(now.wall_ms)
                } else {
                    desk.view.last_tx_ms
                },
                ..desk.view
            })
        }),
{
}

/// Units are sent one after the other: each frame stands before its entry, and
/// the first that cannot be sent ends it.
pub proof fn law_units_go_out_in_order(
    desk: DeskState,
    link: LinkState,
    units: Seq<AsduView>,
    now: Moment,
)
    requires
        units.len() > 0,
    ensures
        ({
            let (desk_before, link_before, error) = after_send_units(
                desk,
                link,
                units.drop_last(),
                now,
            );
            let (desk_after, link_after, failure) = after_send_units(desk, link, units, now);
            let (sent, outcome) = after_send(link_before, units.last(), now.tick_ms);
            &&& error is Some ==> (desk_after, link_after, failure) == (
                desk_before,
                link_before,
                error,
            )
            &&& error is None ==> link_after == sent && match outcome {
                Ok((octets, event)) => failure is None && desk_after == desk_before.put(
                    OutputView::Transmit(octets),
                ).record(event, now),
                Err(text) => failure == Some(text) && desk_after == desk_before,
            }
        }),
{
}

} // verus!
