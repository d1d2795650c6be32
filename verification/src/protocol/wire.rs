//! The link layer: sequence numbers, windows and timers.

use crate::model::{ConnectionPhase, Direction, LogCategory, MetaView, ProtocolMeta, Severity};
use crate::protocol::asdu::{
    asdu_details, asdu_summary, detail_texts, meta_of, protocol_meta, summary_text,
};
use crate::protocol::element::InformationObject;
use crate::protocol::frame::{
    encode_i_frame, exchangeable, frame_octets, known_encodes, unit_octets, written_frame,
    SEQUENCE_MODULUS,
};
use crate::protocol::iec::{
    serialize_control, supervisory_octets, unnumbered_octets, ControlFrame,
};
use crate::protocol::message::{Asdu, AsduView, Frame, FrameView, LinkFunction, UFrame};
use crate::text::{cat, cat_number, decimal, texts};
use std::collections::VecDeque;
use vstd::prelude::*;

verus! {

#[derive(Debug, Clone, Copy, PartialEq, Eq, Structural)]
pub enum LinkRole {
    Client,
    Server,
}

/// The control function whose confirmation is awaited.
#[derive(Debug, Clone, Copy, PartialEq, Eq, Structural)]
pub enum PendingU {
    Start,
    Stop,
    Test,
}

/// The timers in milliseconds and the windows of a link.
#[derive(Debug, Clone, Copy, PartialEq, Eq, Structural)]
pub struct LinkConfig {
    pub t1_ms: u64,
    pub t2_ms: u64,
    pub t3_ms: u64,
    pub k: u16,
    pub w: u16,
}

/// The interval at which the timers are looked at, in milliseconds.
pub fn tick_interval() -> (result: u64)
    ensures
        result == 50,
{
    50
}

/// How many steps lead from one sequence number to another.
pub open spec fn distance(from: u16, to: u16) -> int {
    (to - from) % (SEQUENCE_MODULUS as int)
}

pub fn sequence_distance(from: u16, to: u16) -> (result: u16)
    requires
        from < SEQUENCE_MODULUS,
        to < SEQUENCE_MODULUS,
    ensures
        result == distance(from, to),
        result < SEQUENCE_MODULUS,
{
    ((to as u32 + SEQUENCE_MODULUS as u32 - from as u32) % SEQUENCE_MODULUS as u32) as u16
}

/// One side of a link. Times are milliseconds of a clock that never goes back.
/// What becomes of the frames that are written next stands in `writes`: a text
/// is why a frame could not be written; where there is none, and for every frame
/// beyond these, it was.
#[derive(Debug, Clone)]
pub struct LinkSession {
    pub role: LinkRole,
    pub config: LinkConfig,
    pub phase: ConnectionPhase,
    pub sent_counter: u16,
    pub peer_acknowledged: u16,
    pub received_counter: u16,
    pub unacknowledged_sent: VecDeque<(u16, u64)>,
    pub unacknowledged_received: u16,
    pub t2_deadline: Option<u64>,
    pub last_received: u64,
    pub pending_u: Option<(PendingU, u64)>,
    pub writes: VecDeque<Option<String>>,
}

pub open spec fn write_views(writes: Seq<Option<String>>) -> Seq<Option<Seq<char>>> {
    writes.map_values(|failure: Option<String>| write_view(failure))
}

pub open spec fn write_view(failure: Option<String>) -> Option<Seq<char>> {
    match failure {
        Some(text) => Some(text@),
        None => None,
    }
}

#[verifier::ext_equal]
pub struct LinkState {
    pub role: LinkRole,
    pub config: LinkConfig,
    pub phase: ConnectionPhase,
    pub sent_counter: u16,
    pub peer_acknowledged: u16,
    pub received_counter: u16,
    pub unacknowledged_sent: Seq<(u16, u64)>,
    pub unacknowledged_received: u16,
    pub t2_deadline: Option<u64>,
    pub last_received: u64,
    pub pending_u: Option<(PendingU, u64)>,
    pub writes: Seq<Option<Seq<char>>>,
}

impl View for LinkSession {
    type V = LinkState;

    open spec fn view(&self) -> LinkState {
        LinkState {
            role: self.role,
            config: self.config,
            phase: self.phase,
            sent_counter: self.sent_counter,
            peer_acknowledged: self.peer_acknowledged,
            received_counter: self.received_counter,
            unacknowledged_sent: self.unacknowledged_sent@,
            unacknowledged_received: self.unacknowledged_received,
            t2_deadline: self.t2_deadline,
            last_received: self.last_received,
            pending_u: self.pending_u,
            writes: write_views(self.writes@),
        }
    }
}

pub open spec fn next_number(number: u16) -> u16 {
    ((number + 1) % (SEQUENCE_MODULUS as int)) as u16
}

impl LinkState {
    /// The sequence numbers are in range, and the frames that await an
    /// acknowledgement are the ones between the acknowledged and the sent
    /// number, in order.
    pub open spec fn consistent(self) -> bool {
        &&& self.sent_counter < SEQUENCE_MODULUS
        &&& self.peer_acknowledged < SEQUENCE_MODULUS
        &&& self.received_counter < SEQUENCE_MODULUS
        &&& self.unacknowledged_sent.len() <= self.config.k
        &&& distance(self.peer_acknowledged, self.sent_counter)
            == self.unacknowledged_sent.len() % (SEQUENCE_MODULUS as nat)
        &&& forall|i: int|
            0 <= i < self.unacknowledged_sent.len() ==> (
            #[trigger] self.unacknowledged_sent[i]).0 == (self.peer_acknowledged + i + 1) % (
            SEQUENCE_MODULUS as int)
    }
}

// ---------------------------------------------------------------------------
// What a session reports.
/// Something that happened on the link.
#[derive(Debug, Clone)]
pub enum LinkEvent {
    Numbered { direction: Direction, send: u16, receive: u16, asdu: Asdu },
    Supervisory { direction: Direction, receive: u16 },
    Unnumbered { direction: Direction, frame: UFrame },
    /// Application data came before the transfer was started.
    DataIgnored,
}

#[verifier::ext_equal]
pub enum LinkEventView {
    Numbered { direction: Direction, send: u16, receive: u16, asdu: AsduView },
    Supervisory { direction: Direction, receive: u16 },
    Unnumbered { direction: Direction, frame: UFrame },
    DataIgnored,
}

impl View for LinkEvent {
    type V = LinkEventView;

    open spec fn view(&self) -> LinkEventView {
        match self {
            LinkEvent::Numbered { direction, send, receive, asdu } => LinkEventView::Numbered {
                direction: *direction,
                send: *send,
                receive: *receive,
                asdu: asdu@,
            },
            LinkEvent::Supervisory { direction, receive } => LinkEventView::Supervisory {
                direction: *direction,
                receive: *receive,
            },
            LinkEvent::Unnumbered { direction, frame } => LinkEventView::Unnumbered {
                direction: *direction,
                frame: *frame,
            },
            LinkEvent::DataIgnored => LinkEventView::DataIgnored,
        }
    }
}

pub open spec fn event_views(events: Seq<LinkEvent>) -> Seq<LinkEventView> {
    events.map_values(|event: LinkEvent| event@)
}

pub open spec fn octet_views(frames: Seq<Vec<u8>>) -> Seq<Seq<u8>> {
    frames.map_values(|frame: Vec<u8>| frame@)
}

/// A line of the log about the link.
#[derive(Debug, Clone)]
pub struct WireEvent {
    pub direction: Direction,
    pub severity: Severity,
    pub category: LogCategory,
    pub summary: String,
    pub details: Vec<String>,
    pub protocol: Option<ProtocolMeta>,
}

#[verifier::ext_equal]
pub struct WireView {
    pub direction: Direction,
    pub severity: Severity,
    pub category: LogCategory,
    pub summary: Seq<char>,
    pub details: Seq<Seq<char>>,
    pub protocol: Option<MetaView>,
}

impl View for WireEvent {
    type V = WireView;

    open spec fn view(&self) -> WireView {
        WireView {
            direction: self.direction,
            severity: self.severity,
            category: self.category,
            summary: self.summary@,
            details: texts(self.details@),
            protocol: crate::model::meta_view(self.protocol),
        }
    }
}

pub open spec fn function_text(frame: UFrame) -> Seq<char> {
    if frame.start_dt_activation {
        "STARTDT act"@
    } else if frame.start_dt_confirmation {
        "STARTDT con"@
    } else if frame.stop_dt_activation {
        "STOPDT act"@
    } else if frame.stop_dt_confirmation {
        "STOPDT con"@
    } else if frame.test_fr_activation {
        "TESTFR act"@
    } else if frame.test_fr_confirmation {
        "TESTFR con"@
    } else {
        "未知 U 帧"@
    }
}

pub fn u_frame_label(frame: &UFrame) -> (result: &'static str)
    ensures
        result@ == function_text(*frame),
{
    if frame.start_dt_activation {
        "STARTDT act"
    } else if frame.start_dt_confirmation {
        "STARTDT con"
    } else if frame.stop_dt_activation {
        "STOPDT act"
    } else if frame.stop_dt_confirmation {
        "STOPDT con"
    } else if frame.test_fr_activation {
        "TESTFR act"
    } else if frame.test_fr_confirmation {
        "TESTFR con"
    } else {
        "未知 U 帧"
    }
}

/// The line that an event is logged with.
pub open spec fn wire_line(event: LinkEventView, floats: Seq<Seq<char>>) -> WireView {
    match event {
        LinkEventView::Numbered { direction, send, receive, asdu } => WireView {
            direction,
            severity: Severity::Normal,
            category: LogCategory::Protocol,
            summary: "I帧 N(S)="@ + decimal(send as nat) + " N(R)="@ + decimal(receive as nat)
                + " · "@ + summary_text(asdu, floats),
            details: detail_texts(asdu, floats),
            protocol: Some(meta_of(asdu)),
        },
        LinkEventView::Supervisory { direction, receive } => WireView {
            direction,
            severity: Severity::Normal,
            category: LogCategory::Protocol,
            summary: "S帧 N(R)="@ + decimal(receive as nat),
            details: Seq::empty(),
            protocol: None,
        },
        LinkEventView::Unnumbered { direction, frame } => WireView {
            direction,
            severity: Severity::Normal,
            category: LogCategory::KeepAlive,
            summary: "U帧 "@ + function_text(frame),
            details: Seq::empty(),
            protocol: None,
        },
        LinkEventView::DataIgnored => WireView {
            direction: Direction::Internal,
            severity: Severity::Warning,
            category: LogCategory::Protocol,
            summary: "未激活状态收到 I 帧，已做链路确认但未交给业务"@,
            details: Seq::empty(),
            protocol: None,
        },
    }
}

impl LinkEventView {
    /// The cause of transmission fits in its six bits.
    pub open spec fn describable(self) -> bool {
        self matches LinkEventView::Numbered { asdu, .. } ==> asdu.cot < 64
    }
}

/// The line of an event, with the renderings of the floats that it holds.
pub fn describe(event: &LinkEvent, floats: &Vec<String>) -> (result: WireEvent)
    requires
        event@.describable(),
    ensures
        result@ == wire_line(event@, texts(floats@)),
{
    match event {
        LinkEvent::Numbered { direction, send, receive, asdu } => {
            let text = cat_number("I帧 N(S)=".to_owned(), *send as u64);
            let text = cat(cat_number(cat(text, " N(R)="), *receive as u64), " · ");
            let summary = asdu_summary(asdu, floats);
            WireEvent {
                direction: *direction,
                severity: Severity::Normal,
                category: LogCategory::Protocol,
                summary: cat(text, summary.as_str()),
                details: asdu_details(asdu, floats),
                protocol: Some(protocol_meta(asdu)),
            }
        },
        LinkEvent::Supervisory { direction, receive } => undetailed(
            *direction,
            Severity::Normal,
            LogCategory::Protocol,
            cat_number("S帧 N(R)=".to_owned(), *receive as u64),
        ),
        LinkEvent::Unnumbered { direction, frame } => undetailed(
            *direction,
            Severity::Normal,
            LogCategory::KeepAlive,
            cat("U帧 ".to_owned(), u_frame_label(frame)),
        ),
        LinkEvent::DataIgnored => undetailed(
            Direction::Internal,
            Severity::Warning,
            LogCategory::Protocol,
            "未激活状态收到 I 帧，已做链路确认但未交给业务".to_owned(),
        ),
    }
}

fn undetailed(
    direction: Direction,
    severity: Severity,
    category: LogCategory,
    summary: String,
) -> (result: WireEvent)
    ensures
        result@ == (WireView {
            direction,
            severity,
            category,
            summary: summary@,
            details: Seq::empty(),
            protocol: None,
        }),
{
    let result = WireEvent {
        direction,
        severity,
        category,
        summary,
        details: Vec::new(),
        protocol: None,
    };
    assert(texts(result.details@) =~= Seq::<Seq<char>>::empty());
    result
}

// ---------------------------------------------------------------------------
// Sending.
/// A frame to transmit and the event that reports it.
#[derive(Debug)]
pub struct Sent {
    pub octets: Vec<u8>,
    pub event: LinkEvent,
}

pub open spec fn sent_view(result: Result<Sent, String>) -> Result<
    (Seq<u8>, LinkEventView),
    Seq<char>,
> {
    match result {
        Ok(sent) => Ok((sent.octets@, sent.event@)),
        Err(text) => Err(text@),
    }
}

/// The octets and the event of an unnumbered frame that is sent.
pub open spec fn function_sent(function: LinkFunction) -> (Seq<u8>, LinkEventView) {
    (
        unnumbered_octets(function.unnumbered()),
        LinkEventView::Unnumbered {
            direction: Direction::Outgoing,
            frame: function.unnumbered(),
        },
    )
}

/// The octets and the event of an acknowledgement that is sent.
pub open spec fn acknowledgement_sent(receive: u16) -> (Seq<u8>, LinkEventView) {
    (
        supervisory_octets(receive),
        LinkEventView::Supervisory { direction: Direction::Outgoing, receive },
    )
}

fn send_function(function: LinkFunction) -> (result: Sent)
    ensures
        (result.octets@, result.event@) == function_sent(function),
{
    let frame = function.frame();
    let octets = match serialize_control(ControlFrame::U(frame)) {
        Ok(octets) => octets,
        Err(_) => {
            assert(false);
            Vec::new()
        },
    };
    Sent { octets, event: LinkEvent::Unnumbered { direction: Direction::Outgoing, frame } }
}

impl LinkState {
    /// A link that was just connected.
    pub open spec fn fresh(role: LinkRole, config: LinkConfig, now: u64) -> LinkState {
        LinkState {
            role,
            config,
            phase: ConnectionPhase::ConnectedStopped,
            sent_counter: 0,
            peer_acknowledged: 0,
            received_counter: 0,
            unacknowledged_sent: Seq::empty(),
            unacknowledged_received: 0,
            t2_deadline: None,
            last_received: now,
            pending_u: None,
            writes: Seq::empty(),
        }
    }

    /// Why the next frame cannot be written, if it cannot.
    pub open spec fn write_failure(self) -> Option<Seq<char>> {
        if self.writes.len() > 0 {
            self.writes[0]
        } else {
            None
        }
    }

    /// A frame was written, or could not be.
    pub open spec fn wrote(self) -> LinkState {
        LinkState {
            writes: if self.writes.len() > 0 {
                self.writes.skip(1)
            } else {
                self.writes
            },
            ..self
        }
    }

    pub open spec fn active(self) -> bool {
        self.phase is Active
    }

    pub open spec fn start_refusal(self) -> Option<Seq<char>> {
        if self.role !is Client {
            Some("只有调度客户端可以主动发送 STARTDT"@)
        } else if self.phase !is ConnectedStopped {
            Some("当前状态 "@ + self.phase.label_text() + " 不能发送 STARTDT"@)
        } else {
            None
        }
    }

    pub open spec fn starting(self, now: u64) -> LinkState {
        LinkState {
            phase: ConnectionPhase::Starting,
            pending_u: Some((PendingU::Start, now)),
            ..self
        }
    }

    pub open spec fn stop_refusal(self) -> Option<Seq<char>> {
        if self.role !is Client {
            Some("只有调度客户端可以主动发送 STOPDT"@)
        } else if !self.active() {
            Some("只有 ACTIVE 状态可以发送 STOPDT"@)
        } else {
            None
        }
    }

    pub open spec fn stopping(self, now: u64) -> LinkState {
        LinkState {
            phase: ConnectionPhase::Stopping,
            pending_u: Some((PendingU::Stop, now)),
            ..self
        }
    }

    pub open spec fn test_refusal(self) -> Option<Seq<char>> {
        if !self.active() {
            Some("只有 ACTIVE 状态可以发送 TESTFR"@)
        } else if self.pending_u is Some {
            Some("已有 U 帧等待确认"@)
        } else {
            None
        }
    }

    pub open spec fn testing(self, now: u64) -> LinkState {
        LinkState { pending_u: Some((PendingU::Test, now)), ..self }
    }

    pub open spec fn send_refusal(self) -> Option<Seq<char>> {
        if !self.active() {
            Some("链路状态 "@ + self.phase.label_text() + "，不能发送 I 帧"@)
        } else if self.unacknowledged_sent.len() >= self.config.k {
            Some("发送窗口已满 K="@ + decimal(self.config.k as nat))
        } else {
            None
        }
    }

    /// A unit was sent; it also acknowledges what was received.
    pub open spec fn sent(self, now: u64) -> LinkState {
        LinkState {
            sent_counter: next_number(self.sent_counter),
            unacknowledged_sent: self.unacknowledged_sent.push(
                (next_number(self.sent_counter), now),
            ),
            unacknowledged_received: 0,
            t2_deadline: None,
            ..self
        }
    }

    /// An acknowledgement was sent.
    pub open spec fn acknowledging(self) -> LinkState {
        LinkState { unacknowledged_received: 0, t2_deadline: None, ..self }
    }
}

/// The event of a unit that is sent.
pub open spec fn unit_sent(state: LinkState, asdu: AsduView) -> LinkEventView {
    LinkEventView::Numbered {
        direction: Direction::Outgoing,
        send: state.sent_counter,
        receive: state.received_counter,
        asdu,
    }
}

/// The link after a unit was to be sent, and what came of it.
pub open spec fn after_send(state: LinkState, asdu: AsduView, now: u64) -> (
    LinkState,
    Result<(Seq<u8>, LinkEventView), Seq<char>>,
) {
    match state.send_refusal() {
        Some(text) => (state, Err(text)),
        None => match frame_octets(state.sent_counter, state.received_counter, asdu) {
            Ok(octets) => match state.write_failure() {
                Some(text) => (state.wrote(), Err("发送 I 帧失败: "@ + text)),
                None => (state.wrote().sent(now), Ok((octets, unit_sent(state, asdu)))),
            },
            Err(text) => (state, Err(text)),
        },
    }
}

/// Why a frame without a unit could not be written.
pub open spec fn unwritten(text: Seq<char>) -> Seq<char> {
    "发送 APDU 失败: "@ + text
}

/// The link after a function was to be sent, and what came of it: the link that
/// it leads to where the frame was written.
pub open spec fn after_function(
    state: LinkState,
    refusal: Option<Seq<char>>,
    function: LinkFunction,
    leads_to: LinkState,
) -> (LinkState, Result<(Seq<u8>, LinkEventView), Seq<char>>) {
    match refusal {
        Some(text) => (state, Err(text)),
        None => match state.write_failure() {
            Some(text) => (state.wrote(), Err(unwritten(text))),
            None => (leads_to.wrote(), Ok(function_sent(function))),
        },
    }
}

/// The link after an acknowledgement was to be sent, and what came of it.
pub open spec fn after_acknowledgement(state: LinkState) -> (
    LinkState,
    Result<(Seq<u8>, LinkEventView), Seq<char>>,
) {
    match state.write_failure() {
        Some(text) => (state.wrote(), Err(unwritten(text))),
        None => (
            state.wrote().acknowledging(),
            Ok(acknowledgement_sent(state.received_counter)),
        ),
    }
}

proof fn lemma_sent_stays_consistent(state: LinkState, now: u64)
    requires
        state.consistent(),
        state.unacknowledged_sent.len() < state.config.k,
    ensures
        state.sent(now).consistent(),
{
    let after = state.sent(now);
    let from = state.peer_acknowledged as int;
    let sent = state.sent_counter as int;
    let length = state.unacknowledged_sent.len() as int;
    lemma_remainder_is_close(sent - from);
    lemma_remainder_is_close(length);
    lemma_remainder_is_close(sent + 1);
    lemma_residues_cancel((sent - from) - (sent - from) % 32768, length - length % 32768);
    lemma_same_residue(sent, from + length, 1);
    lemma_residues_cancel((sent - from) - length, (sent + 1) - after.sent_counter);
    lemma_same_residue(after.sent_counter - from, length + 1, 0);
    assert forall|i: int| 0 <= i < after.unacknowledged_sent.len() implies (
    #[trigger] after.unacknowledged_sent[i]).0 == (after.peer_acknowledged + i + 1) % (
    SEQUENCE_MODULUS as int) by {
        if i < length {
            assert(after.unacknowledged_sent[i] == state.unacknowledged_sent[i]);
        }
    }
}

impl LinkSession {
    pub fn new(role: LinkRole, config: LinkConfig, now: u64) -> (result: Self)
        ensures
            result@ == LinkState::fresh(role, config, now),
            result@.consistent(),
    {
        let result = LinkSession {
            role,
            config,
            phase: ConnectionPhase::ConnectedStopped,
            sent_counter: 0,
            peer_acknowledged: 0,
            received_counter: 0,
            unacknowledged_sent: VecDeque::new(),
            unacknowledged_received: 0,
            t2_deadline: None,
            last_received: now,
            pending_u: None,
            writes: VecDeque::new(),
        };
        assert(result@.unacknowledged_sent =~= Seq::<(u16, u64)>::empty());
        assert(result@.writes =~= Seq::<Option<Seq<char>>>::empty());
        result
    }

    pub fn phase(&self) -> (result: ConnectionPhase)
        ensures
            result == self@.phase,
    {
        self.phase
    }

    pub fn is_active(&self) -> (result: bool)
        ensures
            result == self@.active(),
    {
        matches!(self.phase, ConnectionPhase::Active)
    }

    /// Takes what became of the next frame.
    fn write(&mut self) -> (failure: Option<String>)
        ensures
            write_view(failure) == old(self)@.write_failure(),
            final(self)@ == old(self)@.wrote(),
    {
        let ghost before = self.writes@;
        match self.writes.pop_front() {
            Some(failure) => {
                assert(write_views(before).skip(1) =~= write_views(self.writes@));
                assert(self@ =~= old(self)@.wrote());
                failure
            },
            None => None,
        }
    }

    /// Asks the other side to start the data transfer.
    pub fn start_dt(&mut self, now: u64) -> (result: Result<Sent, String>)
        requires
            old(self)@.consistent(),
        ensures
            (final(self)@, sent_view(result)) == after_function(
                old(self)@,
                old(self)@.start_refusal(),
                LinkFunction::StartActivation,
                old(self)@.starting(now),
            ),
            final(self)@.consistent(),
    {
        if self.role != LinkRole::Client {
            return Err("只有调度客户端可以主动发送 STARTDT".to_owned());
        }
        if self.phase != ConnectionPhase::ConnectedStopped {
            let text = cat("当前状态 ".to_owned(), self.phase.label());
            return Err(cat(text, " 不能发送 STARTDT"));
        }
        let sent = send_function(LinkFunction::StartActivation);
        if let Some(text) = self.write() {
            return Err(cat("发送 APDU 失败: ".to_owned(), text.as_str()));
        }
        self.phase = ConnectionPhase::Starting;
        self.pending_u = Some((PendingU::Start, now));
        Ok(sent)
    }

    /// Asks the other side to stop the data transfer.
    pub fn stop_dt(&mut self, now: u64) -> (result: Result<Sent, String>)
        requires
            old(self)@.consistent(),
        ensures
            (final(self)@, sent_view(result)) == after_function(
                old(self)@,
                old(self)@.stop_refusal(),
                LinkFunction::StopActivation,
                old(self)@.stopping(now),
            ),
            final(self)@.consistent(),
    {
        if self.role != LinkRole::Client {
            return Err("只有调度客户端可以主动发送 STOPDT".to_owned());
        }
        if !self.is_active() {
            return Err("只有 ACTIVE 状态可以发送 STOPDT".to_owned());
        }
        let sent = send_function(LinkFunction::StopActivation);
        if let Some(text) = self.write() {
            return Err(cat("发送 APDU 失败: ".to_owned(), text.as_str()));
        }
        self.phase = ConnectionPhase::Stopping;
        self.pending_u = Some((PendingU::Stop, now));
        Ok(sent)
    }

    /// Sends a test frame at the wish of the operator.
    pub fn manual_test(&mut self, now: u64) -> (result: Result<Sent, String>)
        requires
            old(self)@.consistent(),
        ensures
            (final(self)@, sent_view(result)) == after_function(
                old(self)@,
                old(self)@.test_refusal(),
                LinkFunction::TestActivation,
                old(self)@.testing(now),
            ),
            final(self)@.consistent(),
    {
        if !self.is_active() {
            return Err("只有 ACTIVE 状态可以发送 TESTFR".to_owned());
        }
        if self.pending_u.is_some() {
            return Err("已有 U 帧等待确认".to_owned());
        }
        self.send_test_activation(now)
    }

    fn send_test_activation(&mut self, now: u64) -> (result: Result<Sent, String>)
        ensures
            (final(self)@, sent_view(result)) == after_function(
                old(self)@,
                None,
                LinkFunction::TestActivation,
                old(self)@.testing(now),
            ),
    {
        let sent = send_function(LinkFunction::TestActivation);
        if let Some(text) = self.write() {
            return Err(cat("发送 APDU 失败: ".to_owned(), text.as_str()));
        }
        self.pending_u = Some((PendingU::Test, now));
        Ok(sent)
    }

    fn send_s_frame(&mut self) -> (result: Result<Sent, String>)
        ensures
            (final(self)@, sent_view(result)) == after_acknowledgement(old(self)@),
    {
        let receive: u16 = self.received_counter;
        let octets = match serialize_control(ControlFrame::S { receive }) {
            Ok(octets) => octets,
            Err(_) => {
                assert(false);
                Vec::new()
            },
        };
        if let Some(text) = self.write() {
            return Err(cat("发送 APDU 失败: ".to_owned(), text.as_str()));
        }
        self.unacknowledged_received = 0;
        self.t2_deadline = None;
        Ok(
            Sent {
                octets,
                event: LinkEvent::Supervisory { direction: Direction::Outgoing, receive },
            },
        )
    }

    /// Sends a unit, where the transfer is active and the window has room.
    pub fn send_asdu(&mut self, asdu: Asdu, now: u64) -> (result: Result<Sent, String>)
        requires
            old(self)@.consistent(),
        ensures
            (final(self)@, sent_view(result)) == after_send(old(self)@, asdu@, now),
            old(self)@.send_refusal() is None && asdu@.valid() && asdu@.objects is Known
                ==> known_encodes(asdu@, asdu@.objects->Known_0, unit_octets(asdu@)),
            final(self)@.consistent(),
    {
        if !self.is_active() {
            let text = cat("链路状态 ".to_owned(), self.phase.label());
            return Err(cat(text, "，不能发送 I 帧"));
        }
        if self.unacknowledged_sent.len() >= self.config.k as usize {
            return Err(cat_number("发送窗口已满 K=".to_owned(), self.config.k as u64));
        }
        let sequence: u16 = self.sent_counter;
        let receive: u16 = self.received_counter;
        let octets = match encode_i_frame(sequence, receive, &asdu) {
            Ok(octets) => octets,
            Err(text) => {
                return Err(text);
            },
        };
        if let Some(text) = self.write() {
            return Err(cat("发送 I 帧失败: ".to_owned(), text.as_str()));
        }
        proof {
            lemma_sent_stays_consistent(self@, now);
        }
        self.sent_counter = (self.sent_counter + 1) % SEQUENCE_MODULUS;
        self.unacknowledged_sent.push_back((self.sent_counter, now));
        self.unacknowledged_received = 0;
        self.t2_deadline = None;
        assert(self@ =~= old(self)@.wrote().sent(now));
        Ok(
            Sent {
                octets,
                event: LinkEvent::Numbered {
                    direction: Direction::Outgoing,
                    send: sequence,
                    receive,
                    asdu,
                },
            },
        )
    }
}

// ---------------------------------------------------------------------------
// Receiving.
/// What a received frame led to.
#[derive(Debug)]
pub struct ProcessedFrame {
    /// The unit to hand on.
    pub asdu: Option<Asdu>,
    pub events: Vec<LinkEvent>,
    /// The frames to transmit.
    pub replies: Vec<Vec<u8>>,
    pub phase_changed: Option<ConnectionPhase>,
}

#[verifier::ext_equal]
pub struct ProcessedView {
    pub asdu: Option<AsduView>,
    pub events: Seq<LinkEventView>,
    pub replies: Seq<Seq<u8>>,
    pub phase_changed: Option<ConnectionPhase>,
}

pub open spec fn asdu_option(asdu: Option<Asdu>) -> Option<AsduView> {
    match asdu {
        Some(asdu) => Some(asdu@),
        None => None,
    }
}

impl View for ProcessedFrame {
    type V = ProcessedView;

    open spec fn view(&self) -> ProcessedView {
        ProcessedView {
            asdu: asdu_option(self.asdu),
            events: event_views(self.events@),
            replies: octet_views(self.replies@),
            phase_changed: self.phase_changed,
        }
    }
}

pub open spec fn processed_view(result: Result<ProcessedFrame, String>) -> Result<
    ProcessedView,
    Seq<char>,
> {
    match result {
        Ok(processed) => Ok(processed@),
        Err(text) => Err(text@),
    }
}

pub open spec fn saturated_sum(a: u64, b: u64) -> u64 {
    if a + b <= u64::MAX {
        (a + b) as u64
    } else {
        u64::MAX
    }
}

impl LinkState {
    /// Why an acknowledgement is refused, if it is.
    pub open spec fn acknowledgement_refusal(self, number: u16) -> Option<Seq<char>> {
        if number >= SEQUENCE_MODULUS {
            Some("N(R) 超出 15 位序号范围: "@ + decimal(number as nat))
        } else if distance(self.peer_acknowledged, number) > distance(
            self.peer_acknowledged,
            self.sent_counter,
        ) {
            Some(
                "N(R) 非法：V(A)="@ + decimal(self.peer_acknowledged as nat) + " V(S)="@ + decimal(
                    self.sent_counter as nat,
                ) + " 收到 "@ + decimal(number as nat),
            )
        } else {
            None
        }
    }

    /// The other side acknowledged everything before a number.
    pub open spec fn acknowledged(self, number: u16) -> LinkState {
        LinkState {
            peer_acknowledged: number,
            unacknowledged_sent: self.unacknowledged_sent.skip(
                distance(self.peer_acknowledged, number),
            ),
            ..self
        }
    }

    pub open spec fn heard(self, now: u64) -> LinkState {
        LinkState { last_received: now, ..self }
    }

    /// A unit came in order.
    pub open spec fn counted(self, now: u64) -> LinkState {
        LinkState {
            received_counter: next_number(self.received_counter),
            unacknowledged_received: if self.unacknowledged_received < u16::MAX {
                (self.unacknowledged_received + 1) as u16
            } else {
                u16::MAX
            },
            t2_deadline: match self.t2_deadline {
                Some(deadline) => Some(deadline),
                None => Some(saturated_sum(now, self.config.t2_ms)),
            },
            ..self
        }
    }

    /// So many units came that they are acknowledged at once.
    pub open spec fn acknowledgement_due(self) -> bool {
        self.unacknowledged_received >= self.config.w
    }
}

pub open spec fn order_text(expected: u16, found: u16) -> Seq<char> {
    "接收序号错误：期望 N(S)="@ + decimal(expected as nat) + "，实际 "@ + decimal(found as nat)
}

/// The link after a numbered frame, and what it leads to.
pub open spec fn after_numbered(
    state: LinkState,
    send: u16,
    receive: u16,
    asdu: AsduView,
    now: u64,
) -> (LinkState, Result<ProcessedView, Seq<char>>) {
    let heard = state.heard(now);
    match heard.acknowledgement_refusal(receive) {
        Some(text) => (heard, Err(text)),
        None => {
            let acknowledged = heard.acknowledged(receive);
            if send != acknowledged.received_counter {
                (acknowledged, Err(order_text(acknowledged.received_counter, send)))
            } else {
                let counted = acknowledged.counted(now);
                let (answered, reply) = if counted.acknowledgement_due() {
                    let (after, outcome) = after_acknowledgement(counted);
                    (after, Some(outcome))
                } else {
                    (counted, None)
                };
                if let Some(Err(text)) = reply {
                    (answered, Err(text))
                } else {
                    let incoming = LinkEventView::Numbered {
                        direction: Direction::Incoming,
                        send,
                        receive,
                        asdu,
                    };
                    let events = seq![incoming] + match reply {
                        Some(Ok((_, event))) => seq![event],
                        _ => Seq::empty(),
                    } + if counted.active() {
                        Seq::empty()
                    } else {
                        seq![LinkEventView::DataIgnored]
                    };
                    (
                        answered,
                        Ok(
                            ProcessedView {
                                asdu: if counted.active() {
                                    Some(asdu)
                                } else {
                                    None
                                },
                                events,
                                replies: match reply {
                                    Some(Ok((octets, _))) => seq![octets],
                                    _ => Seq::empty(),
                                },
                                phase_changed: None,
                            },
                        ),
                    )
                }
            }
        },
    }
}

/// The link after a supervisory frame.
pub open spec fn after_supervisory(state: LinkState, receive: u16, now: u64) -> (
    LinkState,
    Result<ProcessedView, Seq<char>>,
) {
    let heard = state.heard(now);
    match heard.acknowledgement_refusal(receive) {
        Some(text) => (heard, Err(text)),
        None => (
            heard.acknowledged(receive),
            Ok(
                ProcessedView {
                    asdu: None,
                    events: seq![
                        LinkEventView::Supervisory { direction: Direction::Incoming, receive },
                    ],
                    replies: Seq::empty(),
                    phase_changed: None,
                },
            ),
        ),
    }
}

pub open spec fn function_count(frame: UFrame) -> nat {
    count_of(frame.test_fr_activation) + count_of(frame.test_fr_confirmation) + count_of(
        frame.start_dt_activation,
    ) + count_of(frame.start_dt_confirmation) + count_of(frame.stop_dt_activation) + count_of(
        frame.stop_dt_confirmation,
    )
}

pub open spec fn count_of(set: bool) -> nat {
    if set {
        1
    } else {
        0
    }
}

impl LinkState {
    /// The confirmation of this function is awaited.
    pub open spec fn awaits(self, kind: PendingU) -> bool {
        self.pending_u matches Some((pending, _)) && pending == kind
    }

    /// The link after an unnumbered frame with one function.
    pub open spec fn controlled(self, frame: UFrame) -> LinkState {
        if frame.start_dt_activation || (frame.start_dt_confirmation && self.awaits(
            PendingU::Start,
        )) {
            LinkState { phase: ConnectionPhase::Active, pending_u: None, ..self }
        } else if frame.stop_dt_activation || (frame.stop_dt_confirmation && self.awaits(
            PendingU::Stop,
        )) {
            LinkState { phase: ConnectionPhase::ConnectedStopped, pending_u: None, ..self }
        } else if frame.test_fr_confirmation && self.awaits(PendingU::Test) {
            LinkState { pending_u: None, ..self }
        } else {
            self
        }
    }
}

/// The confirmation that a function is answered with.
pub open spec fn confirming(frame: UFrame) -> Option<LinkFunction> {
    if frame.test_fr_activation {
        Some(LinkFunction::TestConfirmation)
    } else if frame.start_dt_activation {
        Some(LinkFunction::StartConfirmation)
    } else if frame.stop_dt_activation {
        Some(LinkFunction::StopConfirmation)
    } else {
        None
    }
}

/// The link after an unnumbered frame, and what it leads to.
pub open spec fn after_unnumbered(state: LinkState, frame: UFrame, now: u64) -> (
    LinkState,
    Result<ProcessedView, Seq<char>>,
) {
    let heard = state.heard(now);
    if function_count(frame) != 1 {
        (
            heard,
            Err("U 帧必须且只能设置一个功能位，实际 "@ + decimal(function_count(frame))),
        )
    } else if confirming(frame) is Some && heard.write_failure() is Some {
        (heard.wrote(), Err(unwritten(heard.write_failure()->0)))
    } else {
        let answered = if confirming(frame) is Some {
            heard.wrote()
        } else {
            heard
        };
        let after = answered.controlled(frame);
        let incoming = LinkEventView::Unnumbered { direction: Direction::Incoming, frame };
        (
            after,
            Ok(
                ProcessedView {
                    asdu: None,
                    events: match confirming(frame) {
                        Some(function) => seq![incoming, function_sent(function).1],
                        None => seq![incoming],
                    },
                    replies: match confirming(frame) {
                        Some(function) => seq![function_sent(function).0],
                        None => Seq::empty(),
                    },
                    phase_changed: if after.phase != state.phase {
                        Some(after.phase)
                    } else {
                        None
                    },
                },
            ),
        )
    }
}

/// The link after a frame, and what it leads to.
pub open spec fn after_frame(state: LinkState, frame: FrameView, now: u64) -> (
    LinkState,
    Result<ProcessedView, Seq<char>>,
) {
    match frame {
        FrameView::I { send, receive, asdu } => after_numbered(state, send, receive, asdu, now),
        FrameView::S { receive } => after_supervisory(state, receive, now),
        FrameView::U(frame) => after_unnumbered(state, frame, now),
    }
}

proof fn lemma_residues_cancel(x: int, y: int)
    requires
        x % 32768 == 0,
        y % 32768 == 0,
    ensures
        (x - y) % 32768 == 0,
{
}

proof fn lemma_same_residue(x: int, y: int, k: int)
    requires
        (x - y) % 32768 == 0,
    ensures
        (x + k) % 32768 == (y + k) % 32768,
{
}

proof fn lemma_remainder_is_close(x: int)
    ensures
        (x - x % 32768) % 32768 == 0,
        0 <= x % 32768 < 32768,
{
}

proof fn lemma_acknowledged_stays_consistent(state: LinkState, number: u16)
    requires
        state.consistent(),
        state.acknowledgement_refusal(number) is None,
    ensures
        state.acknowledged(number).consistent(),
        0 <= distance(state.peer_acknowledged, number) <= state.unacknowledged_sent.len(),
{
    let from = state.peer_acknowledged as int;
    let sent = state.sent_counter as int;
    let length = state.unacknowledged_sent.len() as int;
    let advance = distance(state.peer_acknowledged, number);
    let after = state.acknowledged(number);
    lemma_remainder_is_close(number - from);
    lemma_remainder_is_close(sent - from);
    lemma_remainder_is_close(length);
    lemma_residues_cancel((sent - from) - (sent - from) % 32768, length - length % 32768);
    lemma_residues_cancel((sent - from) - length, (number - from) - advance);
    lemma_same_residue(sent - number, length - advance, 0);
    assert forall|i: int| 0 <= i < after.unacknowledged_sent.len() implies (
    #[trigger] after.unacknowledged_sent[i]).0 == (after.peer_acknowledged + i + 1) % (
    SEQUENCE_MODULUS as int) by {
        assert(after.unacknowledged_sent[i] == state.unacknowledged_sent[i + advance]);
        lemma_same_residue(number as int, from + advance, i + 1);
    }
}

impl LinkSession {
    fn process_ack(&mut self, acknowledgement: u16) -> (result: Result<(), String>)
        requires
            old(self)@.consistent(),
        ensures
            match old(self)@.acknowledgement_refusal(acknowledgement) {
                Some(text) => (result matches Err(found) && found@ == text) && final(self)@ == old(
                    self,
                )@,
                None => result is Ok && final(self)@ == old(self)@.acknowledged(acknowledgement),
            },
            final(self)@.consistent(),
    {
        if acknowledgement >= SEQUENCE_MODULUS {
            return Err(cat_number("N(R) 超出 15 位序号范围: ".to_owned(), acknowledgement as u64));
        }
        let outstanding: u16 = sequence_distance(self.peer_acknowledged, self.sent_counter);
        let advance: u16 = sequence_distance(self.peer_acknowledged, acknowledgement);
        if advance > outstanding {
            let text = cat_number("N(R) 非法：V(A)=".to_owned(), self.peer_acknowledged as u64);
            let text = cat_number(cat(text, " V(S)="), self.sent_counter as u64);
            return Err(cat_number(cat(text, " 收到 "), acknowledgement as u64));
        }
        proof {
            lemma_acknowledged_stays_consistent(self@, acknowledgement);
        }
        let ghost before = self@;
        let mut removed: u16 = 0;
        while removed < advance
            invariant
                removed <= advance <= before.unacknowledged_sent.len(),
                self@ == (LinkState {
                    unacknowledged_sent: before.unacknowledged_sent.skip(removed as int),
                    ..before
                }),
            decreases advance - removed,
        {
            let _ = self.unacknowledged_sent.pop_front();
            assert(self@.unacknowledged_sent =~= before.unacknowledged_sent.skip(removed + 1));
            removed += 1;
        }
        self.peer_acknowledged = acknowledgement;
        Ok(())
    }

    /// Takes in a frame of the other side.
    pub fn process(&mut self, frame: Frame, now: u64) -> (result: Result<ProcessedFrame, String>)
        requires
            old(self)@.consistent(),
        ensures
            (final(self)@, processed_view(result)) == after_frame(old(self)@, frame@, now),
            final(self)@.consistent(),
    {
        let before = self.phase;
        self.last_received = now;
        assert(self@ =~= old(self)@.heard(now));
        let mut asdu: Option<Asdu> = None;
        let mut events: Vec<LinkEvent> = Vec::new();
        let mut replies: Vec<Vec<u8>> = Vec::new();
        match frame {
            Frame::I { send, receive, asdu: unit } => {
                events.push(
                    LinkEvent::Numbered {
                        direction: Direction::Incoming,
                        send,
                        receive,
                        asdu: unit.copy(),
                    },
                );
                if let Err(text) = self.process_ack(receive) {
                    return Err(text);
                }
                if send != self.received_counter {
                    let text = cat_number(
                        "接收序号错误：期望 N(S)=".to_owned(),
                        self.received_counter as u64,
                    );
                    return Err(cat_number(cat(text, "，实际 "), send as u64));
                }
                let ghost acknowledged = self@;
                self.received_counter = (self.received_counter + 1) % SEQUENCE_MODULUS;
                self.unacknowledged_received = self.unacknowledged_received.saturating_add(1);
                if self.t2_deadline.is_none() {
                    self.t2_deadline = Some(now.saturating_add(self.config.t2_ms));
                }
                assert(self@ =~= acknowledged.counted(now));
                if self.unacknowledged_received >= self.config.w {
                    let sent = match self.send_s_frame() {
                        Ok(sent) => sent,
                        Err(text) => {
                            return Err(text);
                        },
                    };
                    events.push(sent.event);
                    replies.push(sent.octets);
                }
                if self.is_active() {
                    asdu = Some(unit);
                } else {
                    events.push(LinkEvent::DataIgnored);
                }
            },
            Frame::S { receive } => {
                events.push(LinkEvent::Supervisory { direction: Direction::Incoming, receive });
                if let Err(text) = self.process_ack(receive) {
                    return Err(text);
                }
            },
            Frame::U(frame) => {
                let count: u64 = bit_count(frame.test_fr_activation) + bit_count(
                    frame.test_fr_confirmation,
                ) + bit_count(frame.start_dt_activation) + bit_count(frame.start_dt_confirmation)
                    + bit_count(frame.stop_dt_activation) + bit_count(frame.stop_dt_confirmation);
                if count != 1 {
                    return Err(
                        cat_number("U 帧必须且只能设置一个功能位，实际 ".to_owned(), count),
                    );
                }
                events.push(LinkEvent::Unnumbered { direction: Direction::Incoming, frame });
                if frame.test_fr_activation {
                    let sent = send_function(LinkFunction::TestConfirmation);
                    if let Some(text) = self.write() {
                        return Err(cat("发送 APDU 失败: ".to_owned(), text.as_str()));
                    }
                    events.push(sent.event);
                    replies.push(sent.octets);
                }
                if frame.test_fr_confirmation && self.is_pending(PendingU::Test) {
                    self.pending_u = None;
                }
                if frame.start_dt_activation {
                    let sent = send_function(LinkFunction::StartConfirmation);
                    if let Some(text) = self.write() {
                        return Err(cat("发送 APDU 失败: ".to_owned(), text.as_str()));
                    }
                    events.push(sent.event);
                    replies.push(sent.octets);
                    self.phase = ConnectionPhase::Active;
                    self.pending_u = None;
                }
                if frame.start_dt_confirmation && self.is_pending(PendingU::Start) {
                    self.phase = ConnectionPhase::Active;
                    self.pending_u = None;
                }
                if frame.stop_dt_activation {
                    let sent = send_function(LinkFunction::StopConfirmation);
                    if let Some(text) = self.write() {
                        return Err(cat("发送 APDU 失败: ".to_owned(), text.as_str()));
                    }
                    events.push(sent.event);
                    replies.push(sent.octets);
                    self.phase = ConnectionPhase::ConnectedStopped;
                    self.pending_u = None;
                }
                if frame.stop_dt_confirmation && self.is_pending(PendingU::Stop) {
                    self.phase = ConnectionPhase::ConnectedStopped;
                    self.pending_u = None;
                }
            },
        }
        let phase_changed = if self.phase != before {
            Some(self.phase)
        } else {
            None
        };
        let processed = ProcessedFrame { asdu, events, replies, phase_changed };
        proof {
            let expected = after_frame(old(self)@, frame@, now);
            assert(processed@.events =~= expected.1->Ok_0.events);
            assert(processed@.replies =~= expected.1->Ok_0.replies);
            assert(processed@ == expected.1->Ok_0);
        }
        Ok(processed)
    }

    fn is_pending(&self, kind: PendingU) -> (result: bool)
        ensures
            result == self@.awaits(kind),
    {
        match self.pending_u {
            Some((pending, _)) => pending == kind,
            None => false,
        }
    }
}

fn bit_count(set: bool) -> (result: u64)
    ensures
        result == count_of(set),
{
    if set {
        1
    } else {
        0
    }
}

// ---------------------------------------------------------------------------
// Timers.
pub open spec fn elapsed(since: u64, now: u64) -> int {
    if now >= since {
        now - since
    } else {
        0
    }
}

impl LinkState {
    /// The timer that ran out on an unconfirmed frame, if one did.
    pub open spec fn timeout(self, now: u64) -> Option<Seq<char>> {
        if self.pending_u matches Some((_, sent_at)) && elapsed(sent_at, now) >= self.config.t1_ms {
            Some("T1 超时：U 帧未获确认"@)
        } else if self.unacknowledged_sent.len() > 0 && elapsed(
            self.unacknowledged_sent[0].1,
            now,
        ) >= self.config.t1_ms {
            Some("T1 超时：I 帧未获确认"@)
        } else {
            None
        }
    }

    /// It is time to acknowledge what was received.
    pub open spec fn t2_expired(self, now: u64) -> bool {
        self.t2_deadline matches Some(deadline) && now >= deadline && self.unacknowledged_received
            > 0
    }

    /// It is time to test a silent link.
    pub open spec fn t3_expired(self, now: u64) -> bool {
        self.active() && self.pending_u is None && elapsed(self.last_received, now)
            >= self.config.t3_ms
    }
}

/// What the timers lead to: the frames that were written, and the events or why
/// the link is over.
#[derive(Debug)]
pub struct Ticked {
    pub replies: Vec<Vec<u8>>,
    pub outcome: Result<Vec<LinkEvent>, String>,
}

#[verifier::ext_equal]
pub struct TickedView {
    pub replies: Seq<Seq<u8>>,
    pub outcome: Result<Seq<LinkEventView>, Seq<char>>,
}

impl View for Ticked {
    type V = TickedView;

    open spec fn view(&self) -> TickedView {
        TickedView {
            replies: octet_views(self.replies@),
            outcome: match self.outcome {
                Ok(events) => Ok(event_views(events@)),
                Err(text) => Err(text@),
            },
        }
    }
}

/// What was sent after something else was, where there was something to send.
pub open spec fn then_sent(
    before: TickedView,
    sent: Option<Result<(Seq<u8>, LinkEventView), Seq<char>>>,
) -> TickedView {
    match (before.outcome, sent) {
        (Ok(events), Some(Ok((octets, event)))) => TickedView {
            replies: before.replies.push(octets),
            outcome: Ok(events.push(event)),
        },
        (Ok(_), Some(Err(text))) => TickedView { outcome: Err(text), ..before },
        _ => before,
    }
}

/// The link after an acknowledgement that is due, and what came of it.
pub open spec fn after_t2(state: LinkState, now: u64) -> (
    LinkState,
    Option<Result<(Seq<u8>, LinkEventView), Seq<char>>>,
) {
    if state.t2_expired(now) {
        let (after, outcome) = after_acknowledgement(state);
        (after, Some(outcome))
    } else {
        (state, None)
    }
}

/// The link after a test that is due, and what came of it.
pub open spec fn after_t3(state: LinkState, now: u64) -> (
    LinkState,
    Option<Result<(Seq<u8>, LinkEventView), Seq<char>>>,
) {
    if state.t3_expired(now) {
        let (after, outcome) = after_function(
            state,
            None,
            LinkFunction::TestActivation,
            state.testing(now),
        );
        (after, Some(outcome))
    } else {
        (state, None)
    }
}

/// The link after a look at the timers, and what they lead to.
pub open spec fn after_tick(state: LinkState, now: u64) -> (LinkState, TickedView) {
    let nothing = TickedView { replies: Seq::empty(), outcome: Ok(Seq::empty()) };
    match state.timeout(now) {
        Some(text) => (state, TickedView { outcome: Err(text), ..nothing }),
        None => {
            let (first, acknowledgement) = after_t2(state, now);
            let answered = then_sent(nothing, acknowledgement);
            if answered.outcome is Err {
                (first, answered)
            } else {
                let (second, test) = after_t3(first, now);
                (second, then_sent(answered, test))
            }
        },
    }
}

impl LinkSession {
    /// Looks at the timers.
    pub fn tick(&mut self, now: u64) -> (result: Ticked)
        requires
            old(self)@.consistent(),
        ensures
            (final(self)@, result@) == after_tick(old(self)@, now),
            final(self)@.consistent(),
    {
        let mut events: Vec<LinkEvent> = Vec::new();
        let mut replies: Vec<Vec<u8>> = Vec::new();
        assert(event_views(events@) =~= Seq::<LinkEventView>::empty());
        assert(octet_views(replies@) =~= Seq::<Seq<u8>>::empty());
        if let Some((_, sent_at)) = self.pending_u {
            if now.saturating_sub(sent_at) >= self.config.t1_ms {
                return Ticked { replies, outcome: Err("T1 超时：U 帧未获确认".to_owned()) };
            }
        }
        if self.unacknowledged_sent.len() > 0 {
            let sent_at: u64 = self.unacknowledged_sent[0].1;
            if now.saturating_sub(sent_at) >= self.config.t1_ms {
                return Ticked { replies, outcome: Err("T1 超时：I 帧未获确认".to_owned()) };
            }
        }
        let acknowledge = match self.t2_deadline {
            Some(deadline) => now >= deadline && self.unacknowledged_received > 0,
            None => false,
        };
        if acknowledge {
            match self.send_s_frame() {
                Ok(sent) => {
                    let ghost before = (events@, replies@);
                    events.push(sent.event);
                    replies.push(sent.octets);
                    assert(event_views(events@) =~= event_views(before.0).push(sent.event@));
                    assert(octet_views(replies@) =~= octet_views(before.1).push(sent.octets@));
                },
                Err(text) => {
                    return Ticked { replies, outcome: Err(text) };
                },
            }
        }
        if self.is_active() && self.pending_u.is_none() && now.saturating_sub(self.last_received)
            >= self.config.t3_ms {
            match self.send_test_activation(now) {
                Ok(sent) => {
                    let ghost before = (events@, replies@);
                    events.push(sent.event);
                    replies.push(sent.octets);
                    assert(event_views(events@) =~= event_views(before.0).push(sent.event@));
                    assert(octet_views(replies@) =~= octet_views(before.1).push(sent.octets@));
                },
                Err(text) => {
                    return Ticked { replies, outcome: Err(text) };
                },
            }
        }
        Ticked { replies, outcome: Ok(events) }
    }
}

// ---------------------------------------------------------------------------
// Laws of the link.
/// Starting, stopping and testing a link changes no sequence number and forgets
/// no frame that awaits an acknowledgement.
pub proof fn law_control_frames_keep_the_sequence(state: LinkState, frame: UFrame, now: u64)
    ensures
        ({
            let after = after_unnumbered(state, frame, now).0;
            &&& after.sent_counter == state.sent_counter
            &&& after.peer_acknowledged == state.peer_acknowledged
            &&& after.received_counter == state.received_counter
            &&& after.unacknowledged_sent == state.unacknowledged_sent
            &&& after.unacknowledged_received == state.unacknowledged_received
            &&& after.t2_deadline == state.t2_deadline
        }),
{
}

/// A start that a stopped client sends makes both sides active once the server
/// has answered it and the answer was written; a stop makes both sides stopped.
/// Neither changes a sequence number of either side.
pub proof fn law_handshakes_agree(client: LinkState, server: LinkState, now: u64)
    requires
        client.role is Client,
        server.write_failure() is None,
    ensures
        client.phase is ConnectedStopped ==> {
            let asked = client.starting(now);
            let answered = after_unnumbered(
                server,
                LinkFunction::StartActivation.unnumbered(),
                now,
            );
            let confirmed = after_unnumbered(
                asked,
                LinkFunction::StartConfirmation.unnumbered(),
                now,
            );
            &&& client.start_refusal() is None
            &&& answered.1 matches Ok(reply) && reply.replies == seq![
                function_sent(LinkFunction::StartConfirmation).0,
            ]
            &&& answered.0.active()
            &&& confirmed.0.active()
            &&& confirmed.0.pending_u is None
            &&& confirmed.0.sent_counter == client.sent_counter
            &&& confirmed.0.received_counter == client.received_counter
        },
        client.phase is Active ==> {
            let asked = client.stopping(now);
            let answered = after_unnumbered(
                server,
                LinkFunction::StopActivation.unnumbered(),
                now,
            );
            let confirmed = after_unnumbered(
                asked,
                LinkFunction::StopConfirmation.unnumbered(),
                now,
            );
            &&& client.stop_refusal() is None
            &&& answered.1 matches Ok(reply) && reply.replies == seq![
                function_sent(LinkFunction::StopConfirmation).0,
            ]
            &&& answered.0.phase is ConnectedStopped
            &&& confirmed.0.phase is ConnectedStopped
            &&& confirmed.0.pending_u is None
            &&& confirmed.0.sent_counter == client.sent_counter
            &&& confirmed.0.received_counter == client.received_counter
        },
{
}

/// A test that is answered leaves the link active and nothing awaited, so that
/// the silence timer starts anew.
pub proof fn law_answered_test_keeps_the_link(state: LinkState, sent_at: u64, now: u64)
    requires
        state.active(),
        state.write_failure() is None,
    ensures
        ({
            let tested = state.testing(sent_at);
            let after = after_unnumbered(
                tested,
                LinkFunction::TestConfirmation.unnumbered(),
                now,
            ).0;
            &&& after.active()
            &&& after.pending_u is None
            &&& after.last_received == now
        }),
        after_unnumbered(state, LinkFunction::TestActivation.unnumbered(), now).1 matches Ok(reply)
            && reply.replies == seq![function_sent(LinkFunction::TestConfirmation).0],
{
}

/// The timers start and stop nothing: they leave the phase of the link as it is
/// and send acknowledgements and tests alone.
pub proof fn law_timers_start_nothing(state: LinkState, now: u64)
    ensures
        after_tick(state, now).0.phase == state.phase,
        ({
            let ticked = after_tick(state, now).1;
            &&& forall|i: int|
                0 <= i < ticked.replies.len() ==> #[trigger] ticked.replies[i]
                    == acknowledgement_sent(state.received_counter).0 || ticked.replies[i]
                    == function_sent(LinkFunction::TestActivation).0
            &&& ticked.outcome matches Ok(events) ==> events.len() == ticked.replies.len()
                && forall|i: int|
                0 <= i < events.len() ==> (ticked.replies[i], #[trigger] events[i])
                    == acknowledgement_sent(state.received_counter) || (
                ticked.replies[i],
                events[i],
            ) == function_sent(LinkFunction::TestActivation)
        }),
{
}

/// A unit that comes in order over an active link is handed on, whatever else
/// the frame does, as long as an acknowledgement that is due can be written.
pub proof fn law_units_in_order_are_handed_on(
    state: LinkState,
    receive: u16,
    asdu: AsduView,
    now: u64,
)
    requires
        state.consistent(),
        state.active(),
        state.acknowledgement_refusal(receive) is None,
        state.write_failure() is None,
    ensures
        ({
            let (after, outcome) = after_numbered(
                state,
                state.received_counter,
                receive,
                asdu,
                now,
            );
            &&& outcome matches Ok(processed) && processed.asdu == Some(asdu)
            &&& after.received_counter == next_number(state.received_counter)
            &&& after.unacknowledged_received < state.config.w || after.unacknowledged_received
                == 0
        }),
{
}

/// Acknowledging everything that was sent empties the window; acknowledging
/// what was acknowledged before changes nothing; anything beyond what was sent
/// is refused.
pub proof fn law_acknowledgements(state: LinkState, number: u16)
    requires
        state.consistent(),
    ensures
        state.unacknowledged_sent.len() < SEQUENCE_MODULUS ==> state.acknowledgement_refusal(
            state.sent_counter,
        ) is None && state.acknowledged(state.sent_counter).unacknowledged_sent.len() == 0,
        state.acknowledgement_refusal(state.peer_acknowledged) is None,
        state.acknowledged(state.peer_acknowledged) == state,
        number < SEQUENCE_MODULUS && distance(state.peer_acknowledged, number)
            > state.unacknowledged_sent.len() ==> state.acknowledgement_refusal(number) is Some,
        state.acknowledgement_refusal(number) is None ==> state.acknowledged(
            number,
        ).unacknowledged_sent.len() == state.unacknowledged_sent.len() - distance(
            state.peer_acknowledged,
            number,
        ),
{
    assert(state.acknowledged(state.peer_acknowledged) =~= state);
    if state.acknowledgement_refusal(number) is None {
        lemma_acknowledged_stays_consistent(state, number);
    }
    if state.unacknowledged_sent.len() < SEQUENCE_MODULUS {
        lemma_acknowledged_stays_consistent(state, state.sent_counter);
    }
}

/// The window never holds more than `k` frames, and a frame that would make it
/// more is refused.
pub proof fn law_window_is_bounded(state: LinkState, asdu: AsduView, now: u64)
    requires
        state.consistent(),
    ensures
        after_send(state, asdu, now).0.unacknowledged_sent.len() <= state.config.k,
        state.unacknowledged_sent.len() == state.config.k ==> after_send(state, asdu, now).0
            == state && after_send(state, asdu, now).1 is Err,
{
}

/// A unit that both ends can exchange, and that is written as `encode_i_frame`
/// writes it, is sent as the octets that `parse_frame` reads back as that unit
/// with its numbers.
pub proof fn law_sent_units_are_readable(
    state: LinkState,
    asdu: AsduView,
    objects: Seq<InformationObject>,
    now: u64,
)
    requires
        state.send_refusal() is None,
        state.write_failure() is None,
        exchangeable(state.sent_counter, state.received_counter, asdu, objects),
        known_encodes(asdu, objects, unit_octets(asdu)),
    ensures
        after_send(state, asdu, now) == (
            state.wrote().sent(now),
            Ok::<(Seq<u8>, LinkEventView), Seq<char>>(
                (
                    written_frame(state.sent_counter, state.received_counter, asdu, objects),
                    unit_sent(state, asdu),
                ),
            ),
        ),
{
}

/// A unit that could not be written leaves the link as it was, and its place in
/// the order to the next one.
pub proof fn law_unwritten_units_change_nothing(state: LinkState, asdu: AsduView, now: u64)
    requires
        state.write_failure() is Some,
    ensures
        ({
            let (after, outcome) = after_send(state, asdu, now);
            &&& outcome is Err
            &&& after == state || after == state.wrote()
            &&& LinkState { writes: state.writes, ..after } == state
        }),
{
}

/// Every frame that is written next is written.
pub open spec fn writes_succeed(state: LinkState) -> bool {
    forall|i: int| 0 <= i < state.writes.len() ==> (#[trigger] state.writes[i]) is None
}

/// A frame whose confirmation or acknowledgement is awaited for as long as T1
/// ends the link: nothing is sent and nothing of the link changes. Nothing else
/// does but a due frame that cannot be written.
pub proof fn law_unconfirmed_frames_end_the_link(state: LinkState, now: u64)
    ensures
        ({
            let (after, ticked) = after_tick(state, now);
            let control = (state.pending_u matches Some((_, since)) && since <= now && now - since
                >= state.config.t1_ms);
            let unit = state.unacknowledged_sent.len() > 0 && now - state.unacknowledged_sent[0].1
                >= state.config.t1_ms && now >= state.unacknowledged_sent[0].1;
            &&& control || unit ==> ticked.outcome is Err && ticked.replies.len() == 0 && after
                == state
            &&& state.config.t1_ms > 0 && ticked.outcome is Err && !control && !unit ==> exists|
                i: int,
            |
                0 <= i < state.writes.len() && (#[trigger] state.writes[i]) is Some
        }),
{
    let (after, ticked) = after_tick(state, now);
    if ticked.outcome is Err && state.timeout(now) is None {
        let first = after_t2(state, now).0;
        if state.write_failure() is Some {
            assert(state.writes[0] is Some);
        } else if first.write_failure() is Some {
            assert(first.writes[0] == state.writes[0] || first.writes[0] == state.writes[1]);
        }
    }
}

/// What was received is acknowledged once T2 is over, and not before: with one
/// supervisory frame that bears the number of the next unit, after which nothing
/// is left to be acknowledged.
pub proof fn law_received_units_are_acknowledged_in_time(state: LinkState, now: u64)
    requires
        writes_succeed(state),
        after_tick(state, now).1.outcome is Ok,
        state.received_counter < 0x8000,
    ensures
        ({
            let (after, ticked) = after_tick(state, now);
            let number = state.received_counter;
            let frame = seq![
                0x68u8,
                4,
                1,
                0,
                ((number * 2) % 256) as u8,
                ((number * 2) / 256) as u8,
            ];
            let due = state.unacknowledged_received > 0 && (state.t2_deadline matches Some(deadline)
                && deadline <= now);
            &&& due ==> {
                &&& ticked.replies.len() > 0
                &&& ticked.replies[0] == frame
                &&& after.unacknowledged_received == 0
                &&& after.t2_deadline is None
            }
            &&& !due ==> {
                &&& !ticked.replies.contains(frame)
                &&& after.unacknowledged_received == state.unacknowledged_received
                &&& after.t2_deadline == state.t2_deadline
            }
            &&& after.sent_counter == state.sent_counter
            &&& after.received_counter == state.received_counter
            &&& after.peer_acknowledged == state.peer_acknowledged
            &&& after.unacknowledged_sent == state.unacknowledged_sent
            &&& after.last_received == state.last_received
        }),
{
    let (after, ticked) = after_tick(state, now);
    let first = after_t2(state, now).0;
    assert(first.write_failure() is None) by {
        if first.writes.len() > 0 && first.writes != state.writes {
            assert(first.writes[0] == state.writes[1]);
        }
    }
    let number = state.received_counter;
    let frame = seq![
        0x68u8,
        4,
        1,
        0,
        ((number * 2) % 256) as u8,
        ((number * 2) / 256) as u8,
    ];
    assert(acknowledgement_sent(number).0 =~= frame);
    if !state.t2_expired(now) && ticked.replies.contains(frame) {
        let place = choose|i: int| 0 <= i < ticked.replies.len() && ticked.replies[i] == frame;
        assert(ticked.replies[place][2] == 0x43);
        assert(false);
    }
}

/// A link over which nothing came for as long as T3 is tested, where it is
/// active and no confirmation is awaited, and under no other condition. The
/// confirmation of the test is awaited from then on.
pub proof fn law_silent_links_are_tested(state: LinkState, now: u64)
    requires
        writes_succeed(state),
        after_tick(state, now).1.outcome is Ok,
    ensures
        ({
            let (after, ticked) = after_tick(state, now);
            let test = seq![0x68u8, 4, 0x43, 0, 0, 0];
            let silent = state.phase is Active && state.pending_u is None && now
                >= state.last_received && now - state.last_received >= state.config.t3_ms;
            &&& silent ==> {
                &&& ticked.replies.len() > 0
                &&& ticked.replies.last() == test
                &&& after.pending_u == Some((PendingU::Test, now))
            }
            &&& state.config.t3_ms > 0 && !silent ==> {
                &&& !ticked.replies.contains(test)
                &&& after.pending_u == state.pending_u
            }
        }),
{
    let (after, ticked) = after_tick(state, now);
    let first = after_t2(state, now).0;
    assert(first.write_failure() is None) by {
        if first.writes.len() > 0 && first.writes != state.writes {
            assert(first.writes[0] == state.writes[1]);
        }
    }
    let test = seq![0x68u8, 4, 0x43, 0, 0, 0];
    assert(function_sent(LinkFunction::TestActivation).0 =~= test);
    if !first.t3_expired(now) && ticked.replies.contains(test) {
        let place = choose|i: int| 0 <= i < ticked.replies.len() && ticked.replies[i] == test;
        assert(ticked.replies[place][2] == 1);
        assert(false);
    }
}

/// Every activation is answered with its own confirmation, by either side and in
/// every phase. A start makes the link active and a stop stops it; a test leaves
/// it as it is.
pub proof fn law_activations_are_confirmed(state: LinkState, frame: UFrame, now: u64)
    requires
        writes_succeed(state),
        !frame.start_dt_confirmation && !frame.stop_dt_confirmation && !frame.test_fr_confirmation,
    ensures
        ({
            let (after, outcome) = after_frame(state, FrameView::U(frame), now);
            let start = frame.start_dt_activation && !frame.stop_dt_activation
                && !frame.test_fr_activation;
            let stop = frame.stop_dt_activation && !frame.start_dt_activation
                && !frame.test_fr_activation;
            let test = frame.test_fr_activation && !frame.start_dt_activation
                && !frame.stop_dt_activation;
            &&& start ==> {
                &&& outcome matches Ok(done) && done.replies == seq![
                    seq![0x68u8, 4, 0x0B, 0, 0, 0],
                ] && done.asdu is None
                &&& after.phase is Active
                &&& after.pending_u is None
            }
            &&& stop ==> {
                &&& outcome matches Ok(done) && done.replies == seq![
                    seq![0x68u8, 4, 0x23, 0, 0, 0],
                ] && done.asdu is None
                &&& after.phase is ConnectedStopped
                &&& after.pending_u is None
            }
            &&& test ==> {
                &&& outcome matches Ok(done) && done.replies == seq![
                    seq![0x68u8, 4, 0x83, 0, 0, 0],
                ] && done.asdu is None
                &&& after.phase == state.phase
                &&& after.pending_u == state.pending_u
            }
            &&& (outcome is Ok) == (start || stop || test)
            &&& after.last_received == now
            &&& outcome matches Ok(done) ==> done.phase_changed == (if after.phase
                == state.phase {
                None
            } else {
                Some(after.phase)
            })
        }),
{
    let start = unnumbered_octets(LinkFunction::StartConfirmation.unnumbered());
    let stop = unnumbered_octets(LinkFunction::StopConfirmation.unnumbered());
    let test = unnumbered_octets(LinkFunction::TestConfirmation.unnumbered());
    assert(start =~= seq![0x68u8, 4, 0x0B, 0, 0, 0]);
    assert(stop =~= seq![0x68u8, 4, 0x23, 0, 0, 0]);
    assert(test =~= seq![0x68u8, 4, 0x83, 0, 0, 0]);
}

/// A confirmation counts only where it is awaited: then it ends the wait, and one
/// of a start makes the link active and one of a stop stops it. Any other
/// confirmation changes nothing but the time at which something last came. None
/// is answered.
pub proof fn law_confirmations_count_where_they_are_awaited(
    state: LinkState,
    frame: UFrame,
    now: u64,
)
    requires
        !frame.start_dt_activation && !frame.stop_dt_activation && !frame.test_fr_activation,
    ensures
        ({
            let (after, outcome) = after_frame(state, FrameView::U(frame), now);
            let start = frame.start_dt_confirmation && !frame.stop_dt_confirmation
                && !frame.test_fr_confirmation;
            let stop = frame.stop_dt_confirmation && !frame.start_dt_confirmation
                && !frame.test_fr_confirmation;
            let test = frame.test_fr_confirmation && !frame.start_dt_confirmation
                && !frame.stop_dt_confirmation;
            let awaited = match state.pending_u {
                Some((PendingU::Start, _)) => start,
                Some((PendingU::Stop, _)) => stop,
                Some((PendingU::Test, _)) => test,
                None => false,
            };
            &&& (outcome is Ok) == (start || stop || test)
            &&& outcome matches Ok(done) ==> done.replies.len() == 0 && done.asdu is None
                && done.phase_changed == (if after.phase == state.phase {
                None
            } else {
                Some(after.phase)
            })
            &&& awaited ==> after.pending_u is None
            &&& awaited && start ==> after.phase is Active
            &&& awaited && stop ==> after.phase is ConnectedStopped
            &&& awaited && test ==> after.phase == state.phase
            &&& !awaited ==> after == LinkState { last_received: now, ..state }
            &&& after.last_received == now
        }),
{
}

/// A unit is taken only with the number that is next and an acknowledgement that
/// is possible. It is counted; it is acknowledged with one supervisory frame once
/// as many as `w` wait for that, and else within T2; and it is handed on where the
/// link is active.
pub proof fn law_units_are_counted(
    state: LinkState,
    send: u16,
    receive: u16,
    asdu: AsduView,
    now: u64,
)
    requires
        writes_succeed(state),
        state.consistent(),
    ensures
        ({
            let (after, outcome) = after_frame(state, FrameView::I { send, receive, asdu }, now);
            let possible = after_frame(state, FrameView::S { receive }, now).1 is Ok;
            let next = (state.received_counter + 1) % 0x8000;
            let full = state.unacknowledged_received + 1 >= state.config.w;
            &&& (outcome is Ok) == (possible && send == state.received_counter)
            &&& after.last_received == now
            &&& after.phase == state.phase
            &&& after.pending_u == state.pending_u
            &&& outcome is Err ==> after.received_counter == state.received_counter
                && after.unacknowledged_received == state.unacknowledged_received
            &&& outcome matches Ok(done) ==> {
                &&& after.received_counter == next
                &&& done.asdu == (if state.phase is Active {
                    Some(asdu)
                } else {
                    None
                })
                &&& done.phase_changed is None
                &&& full ==> done.replies == seq![
                    seq![0x68u8, 4, 1, 0, ((next * 2) % 256) as u8, ((next * 2) / 256) as u8],
                ] && after.unacknowledged_received == 0 && after.t2_deadline is None
                &&& !full ==> done.replies.len() == 0 && after.unacknowledged_received
                    == state.unacknowledged_received + 1 && (after.t2_deadline matches Some(
                    deadline,
                ) && (state.t2_deadline is Some ==> deadline == state.t2_deadline->0) && (
                state.t2_deadline is None && now + state.config.t2_ms <= u64::MAX ==> deadline == now
                    + state.config.t2_ms))
            }
        }),
{
    let next = ((state.received_counter + 1) % 0x8000) as u16;
    assert(acknowledgement_sent(next).0 =~= seq![
        0x68u8,
        4,
        1,
        0,
        ((next * 2) % 256) as u8,
        ((next * 2) / 256) as u8,
    ]);
}

/// An acknowledgement is possible for exactly the units that were sent and not
/// yet acknowledged, counted round from the last one that was. It frees as many
/// places of the window as it acknowledges units, the oldest first, and alone it
/// is not answered and hands nothing on.
pub proof fn law_acknowledgements_free_the_window(
    state: LinkState,
    acknowledged: int,
    now: u64,
)
    requires
        state.consistent(),
        state.unacknowledged_sent.len() < 0x8000,
        0 <= acknowledged < 0x8000,
    ensures
        ({
            let number = ((state.peer_acknowledged + acknowledged) % 0x8000) as u16;
            let (after, outcome) = after_frame(state, FrameView::S { receive: number }, now);
            &&& (outcome is Ok) == (acknowledged <= state.unacknowledged_sent.len())
            &&& outcome matches Ok(done) ==> {
                &&& done.replies.len() == 0
                &&& done.asdu is None
                &&& after == LinkState {
                    last_received: now,
                    peer_acknowledged: number,
                    unacknowledged_sent: state.unacknowledged_sent.skip(acknowledged),
                    ..state
                }
            }
            &&& outcome is Err ==> after == LinkState { last_received: now, ..state }
        }),
{
    let from = state.peer_acknowledged as int;
    let number = ((from + acknowledged) % 0x8000) as u16;
    lemma_remainder_is_close(from + acknowledged);
    lemma_same_residue(number - from, acknowledged, 0);
    assert(distance(state.peer_acknowledged, number) == acknowledged);
}

/// A unit is sent exactly where the link is active, the window has room and the
/// unit can be written. It bears the next number, which the unit after it then
/// has one more of, acknowledges what was received and awaits its own
/// acknowledgement from then on. A unit that is not sent changes nothing.
pub proof fn law_units_are_sent_in_order(state: LinkState, asdu: AsduView, now: u64)
    requires
        writes_succeed(state),
        state.consistent(),
    ensures
        ({
            let (after, outcome) = after_send(state, asdu, now);
            let next = ((state.sent_counter + 1) % 0x8000) as u16;
            &&& (outcome is Ok) == (state.phase is Active && state.unacknowledged_sent.len()
                < state.config.k && frame_octets(
                state.sent_counter,
                state.received_counter,
                asdu,
            ) is Ok)
            &&& outcome matches Ok((octets, event)) ==> {
                &&& Ok::<Seq<u8>, Seq<char>>(octets) == frame_octets(
                    state.sent_counter,
                    state.received_counter,
                    asdu,
                )
                &&& event == LinkEventView::Numbered {
                    direction: Direction::Outgoing,
                    send: state.sent_counter,
                    receive: state.received_counter,
                    asdu,
                }
                &&& after.sent_counter == next
                &&& after.unacknowledged_sent == state.unacknowledged_sent.push((next, now))
                &&& after.unacknowledged_received == 0
                &&& after.t2_deadline is None
                &&& after.phase == state.phase
                &&& after.received_counter == state.received_counter
                &&& after.peer_acknowledged == state.peer_acknowledged
                &&& after.pending_u == state.pending_u
                &&& after.last_received == state.last_received
            }
            &&& outcome is Err ==> after == state
        }),
{
}

/// The client alone starts a stopped link and stops an active one, and either
/// side tests an active link on which no confirmation is awaited. What was sent
/// is awaited from then on; what is refused changes nothing.
pub proof fn law_functions_are_sent_in_their_phases(state: LinkState, now: u64)
    requires
        writes_succeed(state),
    ensures
        ({
            let start = after_function(
                state,
                state.start_refusal(),
                LinkFunction::StartActivation,
                state.starting(now),
            );
            let stop = after_function(
                state,
                state.stop_refusal(),
                LinkFunction::StopActivation,
                state.stopping(now),
            );
            let test = after_function(
                state,
                state.test_refusal(),
                LinkFunction::TestActivation,
                state.testing(now),
            );
            &&& (start.1 is Ok) == (state.role is Client && state.phase is ConnectedStopped)
            &&& (stop.1 is Ok) == (state.role is Client && state.phase is Active)
            &&& (test.1 is Ok) == (state.phase is Active && state.pending_u is None)
            &&& start.1 matches Ok((octets, _)) ==> octets == seq![0x68u8, 4, 0x07, 0, 0, 0]
                && start.0 == LinkState {
                phase: ConnectionPhase::Starting,
                pending_u: Some((PendingU::Start, now)),
                writes: start.0.writes,
                ..state
            }
            &&& stop.1 matches Ok((octets, _)) ==> octets == seq![0x68u8, 4, 0x13, 0, 0, 0]
                && stop.0 == LinkState {
                phase: ConnectionPhase::Stopping,
                pending_u: Some((PendingU::Stop, now)),
                writes: stop.0.writes,
                ..state
            }
            &&& test.1 matches Ok((octets, _)) ==> octets == seq![0x68u8, 4, 0x43, 0, 0, 0]
                && test.0 == LinkState {
                pending_u: Some((PendingU::Test, now)),
                writes: test.0.writes,
                ..state
            }
            &&& start.1 is Err ==> start.0 == state
            &&& stop.1 is Err ==> stop.0 == state
            &&& test.1 is Err ==> test.0 == state
        }),
{
    assert(function_sent(LinkFunction::StartActivation).0 =~= seq![0x68u8, 4, 0x07, 0, 0, 0]);
    assert(function_sent(LinkFunction::StopActivation).0 =~= seq![0x68u8, 4, 0x13, 0, 0, 0]);
    assert(function_sent(LinkFunction::TestActivation).0 =~= seq![0x68u8, 4, 0x43, 0, 0, 0]);
}

/// A new link is stopped, counts from zero and awaits nothing.
pub proof fn law_links_begin_stopped(role: LinkRole, config: LinkConfig, now: u64)
    ensures
        ({
            let state = LinkState::fresh(role, config, now);
            &&& state.phase is ConnectedStopped
            &&& state.role == role && state.config == config
            &&& state.sent_counter == 0 && state.received_counter == 0 && state.peer_acknowledged
                == 0
            &&& state.unacknowledged_sent.len() == 0 && state.unacknowledged_received == 0
            &&& state.pending_u is None && state.t2_deadline is None
            &&& state.last_received == now
            &&& state.consistent()
        }),
{
}

/// The log shows every frame in the direction in which it went, units and
/// acknowledgements as protocol and functions as keep-alive; only a unit that was
/// not handed on is warned of. The header fields are those of the unit.
pub proof fn law_frames_are_logged_as_what_they_are(
    event: LinkEventView,
    floats: Seq<Seq<char>>,
)
    ensures
        ({
            let line = wire_line(event, floats);
            match event {
                LinkEventView::Numbered { direction, asdu, .. } => {
                    &&& line.direction == direction
                    &&& line.category is Protocol
                    &&& line.severity is Normal
                    &&& line.protocol matches Some(meta) && meta.common_address
                        == asdu.address_field && meta.originator_address
                        == asdu.originator_address && meta.sequence == asdu.sequence && meta.test
                        == asdu.test && meta.negative == asdu.negative && (asdu.objects matches
                        crate::protocol::message::ObjectsView::Known(objects) ==> meta.ioas.len()
                        == objects.len() && forall|i: int|
                        0 <= i < objects.len() ==> #[trigger] meta.ioas[i] == objects[i].address)
                },
                LinkEventView::Supervisory { direction, .. } => {
                    &&& line.direction == direction
                    &&& line.category is Protocol
                    &&& line.severity is Normal
                    &&& line.protocol is None
                },
                LinkEventView::Unnumbered { direction, .. } => {
                    &&& line.direction == direction
                    &&& line.category is KeepAlive
                    &&& line.severity is Normal
                    &&& line.protocol is None
                },
                LinkEventView::DataIgnored => {
                    &&& line.direction is Internal
                    &&& line.category is Protocol
                    &&& line.severity is Warning
                    &&& line.protocol is None
                },
            }
        }),
{
}

} // verus!
