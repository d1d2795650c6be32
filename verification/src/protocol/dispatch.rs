//! The dispatching side: it connects to a station, sends the commands of the
//! operator and gathers what the station reports.

use crate::config::{
    copy_dispatch_points, dispatch_views, endpoint, endpoint_text, DispatchPointConfig,
    DispatchPointView, DispatchSettings,
};
use crate::model::{
    text_view, ConnectionPhase, ConnectionState, ConnectionView, Direction, DispatchAction,
    DispatchCommand, DispatchPointPurpose, DispatchRequest, EventView, LogCategory, Moment,
    RuntimeEvent, Severity, Side, SnapshotKind,
};
use crate::order::{order_of, sorted_by, stable_sort, Order};
use crate::protocol::asdu::{
    build_dispatch_request, request_may_become, rows_at, unit_rows, unit_view,
};
use crate::protocol::collect::{reply_view, SessionExit};
use crate::protocol::desk::{after_send_unit, error_view, Desk, DeskState, OutputView};
use crate::protocol::element::TypeId;
use crate::protocol::message::{Asdu, AsduView, Frame, FrameView, LinkFunction};
use crate::protocol::receipt::{
    awaits_receipt, may_be_expected, pending_aborted, pending_expired, receipt_handled, registered, ApplicationState,
    PendingApplications,
};
use crate::protocol::round::{
    abort_rounds, after_unit, expected_table, expire_rounds, process_round, snapshot_kind,
    ExpectedPoints, Rounds, RoundsState,
};
use crate::protocol::wire::{
    after_frame, after_function, after_tick, function_sent, saturated_sum, LinkConfig, LinkRole, LinkSession,
    LinkState, Sent,
};
use crate::text::{cat, cat_number, decimal, texts};
use vstd::prelude::*;

verus! {

/// A command that is to be sent at its time.
#[derive(Debug, Clone, Copy, PartialEq, Eq, Structural)]
pub struct ScheduledRequest {
    pub request: DispatchRequest,
    pub due: u64,
}

/// Commands by the times at which they are due.
struct RequestsByDue;

impl Order<ScheduledRequest> for RequestsByDue {
    open spec fn precedes(&self, left: &ScheduledRequest, right: &ScheduledRequest) -> bool {
        left.due <= right.due
    }

    fn stands_before(&self, left: &ScheduledRequest, right: &ScheduledRequest) -> (result: bool) {
        left.due <= right.due
    }
}

pub open spec fn requests_by_due() -> spec_fn(ScheduledRequest, ScheduledRequest) -> bool {
    |a: ScheduledRequest, b: ScheduledRequest| a.due <= b.due
}

/// The dispatching side with the points that it expects, whether it is
/// connected or not.
#[derive(Debug, Clone)]
pub struct DispatchSide {
    pub common_address: u16,
    pub t0_ms: u64,
    pub reconnect_ms: u64,
    pub expected: ExpectedPoints,
    /// A point table that waits to be committed, with its generation.
    pub prepared: Option<(u64, ExpectedPoints)>,
    pub desk: Desk,
}

#[verifier::ext_equal]
pub struct DispatchState {
    pub common_address: u16,
    pub t0_ms: u64,
    pub reconnect_ms: u64,
    pub points: Seq<DispatchPointView>,
    pub prepared: Option<(u64, Seq<DispatchPointView>)>,
    pub desk: DeskState,
}

pub open spec fn prepared_points(prepared: Option<(u64, ExpectedPoints)>) -> Option<
    (u64, Seq<DispatchPointView>),
> {
    match prepared {
        Some((generation, points)) => Some((generation, points@)),
        None => None,
    }
}

impl View for DispatchSide {
    type V = DispatchState;

    open spec fn view(&self) -> DispatchState {
        DispatchState {
            common_address: self.common_address,
            t0_ms: self.t0_ms,
            reconnect_ms: self.reconnect_ms,
            points: self.expected@,
            prepared: prepared_points(self.prepared),
            desk: self.desk@,
        }
    }
}

// ---------------------------------------------------------------------------
// The side without a connection.
impl DispatchState {
    pub open spec fn with_desk(self, desk: DeskState) -> DispatchState {
        DispatchState { desk, ..self }
    }

    pub open spec fn log(
        self,
        now: Moment,
        direction: Direction,
        severity: Severity,
        category: LogCategory,
        summary: Seq<char>,
    ) -> DispatchState {
        self.with_desk(self.desk.log(now, direction, severity, category, summary))
    }

    /// Shows the connection in a phase, with the peer that it has.
    pub open spec fn with_peer(
        self,
        phase: ConnectionPhase,
        peer: Option<Seq<char>>,
        detail: Seq<char>,
    ) -> DispatchState {
        let view = ConnectionState { phase, peer, detail, ..self.desk.view };
        self.with_desk(DeskState { view, ..self.desk }.show())
    }

    /// Reports the points that are expected.
    pub open spec fn show_expected(self) -> DispatchState {
        self.with_desk(
            self.desk.emit(
                EventView::DispatchExpectedReloaded {
                    general: expected_table(self.points, DispatchPointPurpose::ExpectedGeneral),
                    energy: expected_table(self.points, DispatchPointPurpose::ExpectedEnergy),
                    points: self.points,
                },
            ),
        )
    }

    /// The side waits before it connects again.
    pub open spec fn waiting(self) -> DispatchState {
        self.with_desk(
            self.desk.enter(
                ConnectionPhase::ReconnectWait,
                decimal(self.reconnect_ms as nat) + " ms 后重试"@,
            ),
        )
    }

    pub open spec fn preparing(self, generation: u64, points: Seq<DispatchPointView>) -> DispatchState {
        DispatchState { prepared: Some((generation, points)), ..self }
    }

    /// The point table that waits is put in place, where it is the one meant.
    pub open spec fn committing(self, generation: u64, now: Moment) -> (
        DispatchState,
        Option<Seq<char>>,
    ) {
        match self.prepared {
            None => (self, Some("调度侧没有待提交的重载版本 "@ + decimal(generation as nat))),
            Some((waiting, points)) => if waiting != generation {
                (
                    self,
                    Some(
                        "调度侧待提交版本为 "@ + decimal(waiting as nat) + "，收到版本 "@ + decimal(
                            generation as nat,
                        ),
                    ),
                )
            } else {
                (
                    DispatchState { points, prepared: None, ..self }.show_expected().log(
                        now,
                        Direction::Internal,
                        Severity::Success,
                        LogCategory::Configuration,
                        "调度点表已提交重载版本 "@ + decimal(generation as nat),
                    ),
                    None,
                )
            },
        }
    }

    pub open spec fn aborting(self, generation: u64) -> DispatchState {
        if self.prepared matches Some((waiting, _)) && waiting == generation {
            DispatchState { prepared: None, ..self }
        } else {
            self
        }
    }

    /// A command came while there is no connection; the reply to a reload.
    pub open spec fn commanded(self, command: DispatchCommand, now: Moment) -> (
        DispatchState,
        Option<Option<Seq<char>>>,
    ) {
        match command {
            DispatchCommand::PrepareReload { generation, points } => (
                self.preparing(generation, dispatch_views(points@)),
                Some(None),
            ),
            DispatchCommand::CommitReload { generation } => {
                let (after, error) = self.committing(generation, now);
                (after, Some(error))
            },
            DispatchCommand::AbortReload(generation) => (self.aborting(generation), None),
            DispatchCommand::Execute(request) => (
                self.log(
                    now,
                    Direction::Internal,
                    Severity::Warning,
                    LogCategory::Control,
                    request.action.label_text() + "本地拒绝："@ + if self.prepared is Some {
                        "点表重载已准备，等待提交或取消"@
                    } else {
                        "调度 TCP 尚未连接"@
                    },
                ),
                None,
            ),
        }
    }
}

impl DispatchSide {
    pub fn new(settings: &DispatchSettings, t0_ms: u64, points: Vec<DispatchPointConfig>) -> (
        result: DispatchSide)
        ensures
            result@ == (DispatchState {
                common_address: settings.common_address,
                t0_ms,
                reconnect_ms: settings.reconnect_ms,
                points: dispatch_views(points@),
                prepared: None,
                desk: DeskState {
                    side: Side::Dispatch,
                    view: ConnectionState {
                        phase: ConnectionPhase::Disconnected,
                        endpoint: endpoint_text(settings.target_host@, settings.target_port),
                        peer: None,
                        detail: Seq::empty(),
                        last_rx_ms: None,
                        last_tx_ms: None,
                    },
                    outputs: Seq::empty(),
                },
            }).show_expected().with_peer(ConnectionPhase::Disconnected, None, Seq::empty()),
    {
        let view = ConnectionView::new(
            ConnectionPhase::Disconnected,
            endpoint(settings.target_host.as_str(), settings.target_port),
        );
        let mut side = DispatchSide {
            common_address: settings.common_address,
            t0_ms,
            reconnect_ms: settings.reconnect_ms,
            expected: ExpectedPoints::new(points),
            prepared: None,
            desk: Desk::new(Side::Dispatch, view),
        };
        side.emit_expected();
        side.desk.show();
        side
    }

    fn emit_expected(&mut self)
        ensures
            final(self)@ == old(self)@.show_expected(),
    {
        let general = self.expected.general_views();
        let energy = self.expected.energy_views();
        let points = copy_dispatch_points(&self.expected.points);
        self.desk.emit(RuntimeEvent::DispatchExpectedReloaded { general, energy, points });
    }

    fn show_peer(&mut self, phase: ConnectionPhase, peer: Option<String>, detail: String)
        ensures
            final(self)@ == old(self)@.with_peer(phase, text_view(peer), detail@),
    {
        self.desk.view.phase = phase;
        self.desk.view.peer = peer;
        self.desk.view.detail = detail;
        self.desk.show();
    }

    /// Begins to connect.
    pub fn connecting(&mut self, now: Moment)
        ensures
            final(self)@ == old(self)@.with_peer(
                ConnectionPhase::Connecting,
                None,
                "正在连接 "@ + old(self)@.desk.view.endpoint,
            ).log(
                now,
                Direction::Internal,
                Severity::Normal,
                LogCategory::Connection,
                "正在连接调度子站 "@ + old(self)@.desk.view.endpoint,
            ),
    {
        let detail = cat("正在连接 ".to_owned(), self.desk.view.endpoint.as_str());
        self.show_peer(ConnectionPhase::Connecting, None, detail);
        let text = cat("正在连接调度子站 ".to_owned(), self.desk.view.endpoint.as_str());
        self.desk.log(now, Direction::Internal, Severity::Normal, LogCategory::Connection, text);
    }

    fn wait(&mut self)
        ensures
            final(self)@ == old(self)@.waiting(),
    {
        let detail = crate::text::decimal_text(self.reconnect_ms as u128);
        self.desk.enter(ConnectionPhase::ReconnectWait, cat(detail, " ms 后重试"));
    }

    /// The connection was refused.
    pub fn connect_failed(&mut self, reason: &str, now: Moment)
        ensures
            final(self)@ == old(self)@.log(
                now,
                Direction::Internal,
                Severity::Warning,
                LogCategory::Connection,
                "连接调度子站失败: "@ + reason@,
            ).waiting(),
    {
        let text = cat("连接调度子站失败: ".to_owned(), reason);
        self.desk.log(now, Direction::Internal, Severity::Warning, LogCategory::Connection, text);
        self.wait();
    }

    /// The connection was not made in time.
    pub fn connect_timed_out(&mut self, now: Moment)
        ensures
            final(self)@ == old(self)@.log(
                now,
                Direction::Internal,
                Severity::Warning,
                LogCategory::Connection,
                "连接调度子站超时（T0="@ + decimal(old(self)@.t0_ms as nat) + " ms）"@,
            ).waiting(),
    {
        let text = cat_number("连接调度子站超时（T0=".to_owned(), self.t0_ms);
        let text = cat(text, " ms）");
        self.desk.log(now, Direction::Internal, Severity::Warning, LogCategory::Connection, text);
        self.wait();
    }

    /// The connection was made.
    pub fn connected(&mut self, peer: Option<String>, now: Moment)
        ensures
            final(self)@ == old(self)@.with_peer(
                ConnectionPhase::ConnectedStopped,
                text_view(peer),
                "TCP 已连接；请在调度指令页手动 STARTDT"@,
            ).log(
                now,
                Direction::Incoming,
                Severity::Success,
                LogCategory::Connection,
                "调度 TCP 已连接，当前保持 CONNECTED_STOPPED"@,
            ),
    {
        self.show_peer(
            ConnectionPhase::ConnectedStopped,
            peer,
            "TCP 已连接；请在调度指令页手动 STARTDT".to_owned(),
        );
        self.desk.log(
            now,
            Direction::Incoming,
            Severity::Success,
            LogCategory::Connection,
            "调度 TCP 已连接，当前保持 CONNECTED_STOPPED".to_owned(),
        );
    }

    /// The connection could not be set up to send without delay.
    pub fn delay_kept(&mut self, reason: &str, now: Moment)
        ensures
            final(self)@ == old(self)@.log(
                now,
                Direction::Internal,
                Severity::Warning,
                LogCategory::Connection,
                "设置 TCP_NODELAY 失败: "@ + reason@,
            ),
    {
        let text = cat("设置 TCP_NODELAY 失败: ".to_owned(), reason);
        self.desk.log(now, Direction::Internal, Severity::Warning, LogCategory::Connection, text);
    }

    /// The connection is gone.
    pub fn session_ended(&mut self)
        ensures
            final(self)@ == old(self)@.with_peer(
                ConnectionPhase::ReconnectWait,
                None,
                "连接断开，"@ + decimal(old(self)@.reconnect_ms as nat) + " ms 后重试"@,
            ),
    {
        let detail = cat_number("连接断开，".to_owned(), self.reconnect_ms);
        self.show_peer(ConnectionPhase::ReconnectWait, None, cat(detail, " ms 后重试"));
    }

    pub fn stop(&mut self)
        ensures
            final(self)@ == old(self)@.with_peer(
                ConnectionPhase::Disabled,
                None,
                "调度侧任务已停止"@,
            ),
    {
        self.show_peer(ConnectionPhase::Disabled, None, "调度侧任务已停止".to_owned());
    }

    fn prepare(&mut self, generation: u64, points: Vec<DispatchPointConfig>)
        ensures
            final(self)@ == old(self)@.preparing(generation, dispatch_views(points@)),
    {
        self.prepared = Some((generation, ExpectedPoints::new(points)));
    }

    /// Puts a prepared point table in place.
    pub fn commit_expected_reload(&mut self, generation: u64, now: Moment) -> (result: Result<
        (),
        String,
    >)
        ensures
            (final(self)@, error_view(result)) == old(self)@.committing(generation, now),
    {
        match self.prepared.take() {
            None => Err(cat_number("调度侧没有待提交的重载版本 ".to_owned(), generation)),
            Some((waiting, fresh)) => {
                if waiting != generation {
                    self.prepared = Some((waiting, fresh));
                    let text = cat_number("调度侧待提交版本为 ".to_owned(), waiting);
                    return Err(cat_number(cat(text, "，收到版本 "), generation));
                }
                self.expected = fresh;
                self.emit_expected();
                self.desk.log(
                    now,
                    Direction::Internal,
                    Severity::Success,
                    LogCategory::Configuration,
                    cat_number("调度点表已提交重载版本 ".to_owned(), generation),
                );
                Ok(())
            },
        }
    }

    /// Drops a prepared point table, where it is the one meant.
    pub fn abort_expected_reload(&mut self, generation: u64)
        ensures
            final(self)@ == old(self)@.aborting(generation),
    {
        let matching = match &self.prepared {
            Some((waiting, _)) => *waiting == generation,
            None => false,
        };
        if matching {
            self.prepared = None;
        }
    }

    /// Carries out a command while there is no connection.
    pub fn command(&mut self, command: DispatchCommand, now: Moment) -> (result: Option<
        Result<(), String>,
    >)
        ensures
            (final(self)@, reply_view(result)) == old(self)@.commanded(command, now),
    {
        match command {
            DispatchCommand::PrepareReload { generation, points } => {
                self.prepare(generation, points);
                Some(Ok(()))
            },
            DispatchCommand::CommitReload { generation } => Some(
                self.commit_expected_reload(generation, now),
            ),
            DispatchCommand::AbortReload(generation) => {
                self.abort_expected_reload(generation);
                None
            },
            DispatchCommand::Execute(request) => {
                let text = cat(request.action.label().to_owned(), "本地拒绝：");
                let reason = if self.prepared.is_some() {
                    "点表重载已准备，等待提交或取消"
                } else {
                    "调度 TCP 尚未连接"
                };
                self.desk.log(
                    now,
                    Direction::Internal,
                    Severity::Warning,
                    LogCategory::Control,
                    cat(text, reason),
                );
                None
            },
        }
    }
}

// ---------------------------------------------------------------------------
// A connected session.
/// The dispatching side while it is connected.
#[derive(Debug, Clone)]
pub struct DispatchSession {
    pub home: DispatchSide,
    pub link: LinkSession,
    pub rounds: Rounds,
    pub applications: PendingApplications,
    pub scheduled: Vec<ScheduledRequest>,
    /// How long an interrogation may take, and a receipt.
    pub timeout_ms: u64,
}

#[verifier::ext_equal]
pub struct DispatchSessionState {
    pub home: DispatchState,
    pub link: LinkState,
    pub rounds: RoundsState,
    pub pending: Seq<ApplicationState>,
    pub scheduled: Seq<ScheduledRequest>,
    pub timeout_ms: u64,
}

impl View for DispatchSession {
    type V = DispatchSessionState;

    open spec fn view(&self) -> DispatchSessionState {
        DispatchSessionState {
            home: self.home@,
            link: self.link@,
            rounds: self.rounds@,
            pending: self.applications@,
            scheduled: self.scheduled@,
            timeout_ms: self.timeout_ms,
        }
    }
}

/// The largest product that fits.
pub open spec fn saturated_product(a: u64, b: u64) -> u64 {
    if a * b <= u64::MAX {
        (a * b) as u64
    } else {
        u64::MAX
    }
}

fn saturating_product(a: u64, b: u64) -> (result: u64)
    ensures
        result == saturated_product(a, b),
{
    match a.checked_mul(b) {
        Some(product) => product,
        None => u64::MAX,
    }
}

/// A side shows the values that a unit of its station brings, unless they are
/// negative or for a test.
pub open spec fn values_shown(
    desk: DeskState,
    common_address: u16,
    asdu: AsduView,
    floats: Seq<Seq<char>>,
    now: Moment,
) -> DeskState {
    let values = unit_rows(asdu, floats, now.wall_ms);
    if asdu.address_field != common_address || asdu.test || asdu.negative || values.len() == 0 {
        desk
    } else {
        desk.emit(
            EventView::DispatchValues {
                kind: if asdu.type_id is M_IT_NA_1 {
                    SnapshotKind::Energy
                } else {
                    SnapshotKind::General
                },
                values,
            },
        )
    }
}

pub fn emit_current_values(
    asdu: &Asdu,
    configured_common_address: u16,
    floats: &Vec<String>,
    now: Moment,
    desk: &mut Desk,
)
    ensures
        final(desk)@ == values_shown(
            old(desk)@,
            configured_common_address,
            asdu@,
            texts(floats@),
            now,
        ),
{
    if asdu.address_field != configured_common_address || asdu.test || asdu.negative {
        return;
    }
    let values = rows_at(asdu, floats, now.wall_ms);
    assert(crate::model::rows(values@).len() == values@.len());
    if values.len() == 0 {
        return;
    }
    let kind = if asdu.type_id == TypeId::M_IT_NA_1 {
        SnapshotKind::Energy
    } else {
        SnapshotKind::General
    };
    desk.emit(RuntimeEvent::DispatchValues { kind, values });
}

/// The name of a command that only changes the link.
pub open spec fn link_action_name(action: DispatchAction) -> Seq<char> {
    match action {
        DispatchAction::StartDt => "StartDt"@,
        DispatchAction::StopDt => "StopDt"@,
        _ => "TestFr"@,
    }
}

impl DispatchSessionState {
    pub open spec fn with_home(self, home: DispatchState) -> DispatchSessionState {
        DispatchSessionState { home, ..self }
    }

    pub open spec fn with_desk(self, desk: DeskState) -> DispatchSessionState {
        self.with_home(self.home.with_desk(desk))
    }

    pub open spec fn log(
        self,
        now: Moment,
        direction: Direction,
        severity: Severity,
        category: LogCategory,
        summary: Seq<char>,
    ) -> DispatchSessionState {
        self.with_home(self.home.log(now, direction, severity, category, summary))
    }

    /// Nothing is under way.
    pub open spec fn idle(self) -> bool {
        self.rounds == RoundsState::idle() && self.pending.len() == 0 && self.scheduled.len() == 0
    }

    /// Interrogations and receipts are given up.
    pub open spec fn given_up(self, reason: Seq<char>, now: Moment) -> DispatchSessionState {
        let (rounds, mid) = self.rounds.all_aborted(self.home.desk, reason, now);
        let (pending, desk) = pending_aborted(self.pending, mid, reason, now);
        DispatchSessionState { rounds, pending, ..self.with_desk(desk) }
    }

    /// How many receipts are awaited is reported where it is no more what it
    /// was.
    pub open spec fn counted(self, before: nat) -> DispatchSessionState {
        if self.pending.len() != before {
            self.with_desk(
                self.home.desk.emit(EventView::ApplicationPending(self.pending.len() as usize)),
            )
        } else {
            self
        }
    }

    /// A unit came in.
    pub open spec fn took(
        self,
        asdu: AsduView,
        floats: Seq<Seq<char>>,
        now: Moment,
    ) -> DispatchSessionState {
        let points = self.home.points;
        let shown = values_shown(self.home.desk, self.home.common_address, asdu, floats, now);
        let (general, first) = after_unit(
            self.rounds.general,
            shown,
            SnapshotKind::General,
            asdu,
            floats,
            points,
            now,
        );
        let (energy, second) = after_unit(
            self.rounds.energy,
            first,
            SnapshotKind::Energy,
            asdu,
            floats,
            points,
            now,
        );
        let (pending, third) = receipt_handled(self.pending, second, asdu, now);
        DispatchSessionState {
            rounds: RoundsState { general, energy },
            pending,
            ..self.with_desk(third)
        }.counted(self.pending.len())
    }

    /// A frame came in.
    pub open spec fn received(self, frame: FrameView, floats: Seq<Seq<char>>, now: Moment) -> (
        DispatchSessionState,
        SessionExit,
    ) {
        let (link, outcome) = after_frame(self.link, frame, now.tick_ms);
        let heard = DispatchSessionState { link, ..self };
        match outcome {
            Err(text) => (
                heard.log(
                    now,
                    Direction::Internal,
                    Severity::Error,
                    LogCategory::Protocol,
                    "调度链路处理失败: "@ + text,
                ).given_up("协议错误"@, now),
                SessionExit::Disconnect,
            ),
            Ok(processed) => {
                let recorded = heard.with_desk(
                    self.home.desk.transmit_all(processed.replies).record_all(
                        processed.events,
                        now,
                    ),
                );
                let shown = match processed.phase_changed {
                    Some(phase) => {
                        let entered = recorded.with_desk(
                            recorded.home.desk.enter(phase, phase.label_text()),
                        );
                        if phase is ConnectedStopped {
                            entered.given_up("STOPDT"@, now)
                        } else {
                            entered
                        }
                    },
                    None => recorded,
                };
                match processed.asdu {
                    None => (shown, SessionExit::Stay),
                    Some(asdu) => (shown.took(asdu, floats, now), SessionExit::Stay),
                }
            },
        }
    }

    /// A frame of the link was sent.
    pub open spec fn function_sent(self, function: LinkFunction, now: Moment) -> DispatchSessionState {
        let (octets, event) = function_sent(function);
        let sent = self.home.desk.put(OutputView::Transmit(octets));
        let view = ConnectionState { phase: self.link.phase, ..sent.view };
        if function is TestActivation {
            self.with_desk(sent.record(event, now))
        } else {
            self.with_desk(DeskState { view, ..sent }.record(event, now).show())
        }
    }

    /// A command that only changes the link was to be sent, and why it was not.
    pub open spec fn link_commanded(self, action: DispatchAction, now: Moment) -> (
        DispatchSessionState,
        Option<Seq<char>>,
    ) {
        let (refusal, leads_to, function) = match action {
            DispatchAction::StartDt => (
                self.link.start_refusal(),
                self.link.starting(now.tick_ms),
                LinkFunction::StartActivation,
            ),
            DispatchAction::StopDt => (
                self.link.stop_refusal(),
                self.link.stopping(now.tick_ms),
                LinkFunction::StopActivation,
            ),
            _ => (
                self.link.test_refusal(),
                self.link.testing(now.tick_ms),
                LinkFunction::TestActivation,
            ),
        };
        let (link, outcome) = after_function(self.link, refusal, function, leads_to);
        let tried = DispatchSessionState { link, ..self };
        match outcome {
            Err(text) => (tried, Some(text)),
            Ok(_) => (tried.function_sent(function, now), None),
        }
    }

    /// A command is sent as what it became, and its receipt is awaited as what it
    /// is expected to be; why it was not.
    pub open spec fn dispatched(
        self,
        request: DispatchRequest,
        built: Result<Option<AsduView>, Seq<char>>,
        expected: Result<Option<AsduView>, Seq<char>>,
        now: Moment,
    ) -> (DispatchSessionState, Option<Seq<char>>) {
        match built {
            Err(text) => (self, Some(text)),
            Ok(None) => (
                self,
                Some("动作 "@ + link_action_name(request.action) + " 没有应用层 ASDU"@),
            ),
            Ok(Some(unit)) => {
                let (desk, link, error) = after_send_unit(self.home.desk, self.link, unit, now);
                let sent = DispatchSessionState { link, ..self.with_desk(desk) };
                match error {
                    Some(text) => (
                        match snapshot_kind(request.action) {
                            Some(kind) => {
                                let (rounds, desk) = self.rounds.aborted(
                                    desk,
                                    kind,
                                    "发送失败"@,
                                    now,
                                );
                                DispatchSessionState { rounds, ..sent.with_desk(desk) }
                            },
                            None => sent,
                        },
                        Some(text),
                    ),
                    None => {
                        let (pending, error) = registered(
                            self.pending,
                            request,
                            expected,
                            self.home.common_address,
                            self.timeout_ms,
                            now,
                        );
                        (
                            DispatchSessionState { pending, ..sent }.counted(self.pending.len()),
                            error,
                        )
                    },
                }
            },
        }
    }

    /// A command that is sent as what it became awaits a receipt.
    pub open spec fn awaits(
        self,
        request: DispatchRequest,
        built: Result<Option<AsduView>, Seq<char>>,
        now: Moment,
    ) -> bool {
        awaits_receipt(request.action) && (built matches Ok(Some(unit)) && after_send_unit(
            self.home.desk,
            self.link,
            unit,
            now,
        ).2 is None)
    }

    /// The first command that is scheduled is due.
    pub open spec fn due(self, now: Moment) -> bool {
        self.scheduled.len() > 0 && self.scheduled[0].due <= now.tick_ms
    }

    /// The commands that are due are sent, one after the other, up to one that
    /// cannot be.
    pub open spec fn flushes(
        self,
        now: Moment,
        after: DispatchSessionState,
        error: Option<Seq<char>>,
    ) -> bool
        decreases self.scheduled.len(),
    {
        if !self.due(now) {
            after == self && error is None
        } else {
            let request = self.scheduled[0].request;
            let rest = DispatchSessionState { scheduled: self.scheduled.skip(1), ..self };
            exists|
                built: Result<Option<AsduView>, Seq<char>>,
                expected: Result<Option<AsduView>, Seq<char>>,
            |
                #[trigger] request_may_become(request, built) && #[trigger] may_be_expected(
                    rest.awaits(request, built, now),
                    request,
                    expected,
                ) && {
                    let (mid, failure) = rest.dispatched(request, built, expected, now);
                    if failure is Some || mid.scheduled.len() >= self.scheduled.len() {
                        after == mid && error == failure
                    } else {
                        mid.flushes(now, after, error)
                    }
                }
        }
    }

    /// An interrogation begins a round; a repeated one is sent once.
    pub open spec fn reserving(self, request: DispatchRequest, now: Moment) -> (
        DispatchSessionState,
        Option<Seq<char>>,
    ) {
        if snapshot_kind(request.action) is None {
            (self, None)
        } else {
            let told = if request.repeat > 1 {
                self.log(
                    now,
                    Direction::Internal,
                    Severity::Warning,
                    LogCategory::Interrogation,
                    "召唤事务不支持重复发送，已按一次执行"@,
                )
            } else {
                self
            };
            let (rounds, desk, error) = self.rounds.reserved(
                told.home.desk,
                DispatchRequest { repeat: 1, ..request },
                self.home.common_address,
                self.timeout_ms,
                now,
            );
            (DispatchSessionState { rounds, ..told.with_desk(desk) }, error)
        }
    }

    /// A command is scheduled as often as it is to be sent.
    pub open spec fn scheduling(self, request: DispatchRequest, now: Moment) -> DispatchSessionState {
        DispatchSessionState {
            scheduled: sorted_by(
                self.scheduled + planned(request, now.tick_ms),
                requests_by_due(),
            ),
            ..self
        }
    }

    /// A command of the operator is carried out; why it was not.
    pub open spec fn executes(
        self,
        request: DispatchRequest,
        now: Moment,
        after: DispatchSessionState,
        error: Option<Seq<char>>,
    ) -> bool {
        if request.action.link_only() {
            (after, error) == self.link_commanded(request.action, now)
        } else if !self.link.active() {
            after == self && error == Some(
                "链路状态 "@ + self.link.phase.label_text() + "，需要先 STARTDT"@,
            )
        } else {
            exists|built: Result<Option<AsduView>, Seq<char>>| #[trigger]
                request_may_become(request, built) && match built {
                    Err(text) => after == self && error == Some(text),
                    Ok(_) => {
                        let (reserved, refusal) = self.reserving(request, now);
                        if refusal is Some {
                            after == reserved && error == refusal
                        } else {
                            reserved.scheduling(request, now).flushes(now, after, error)
                        }
                    },
                }
        }
    }
}

/// How often a command is sent: an interrogation once, another one at least
/// once.
pub open spec fn repetitions(request: DispatchRequest) -> nat {
    if snapshot_kind(request.action) is Some || request.repeat == 0 {
        1
    } else {
        request.repeat as nat
    }
}

/// The time at which a command is sent for the `index`-th time.
pub open spec fn planned_time(request: DispatchRequest, now: u64, index: int) -> u64 {
    let spacing = if request.interval_ms == 0 {
        1u64
    } else {
        request.interval_ms
    };
    saturated_sum(now, saturated_product(spacing, index as u64))
}

/// The command, as often as it is to be sent.
pub open spec fn planned(request: DispatchRequest, now: u64) -> Seq<ScheduledRequest> {
    Seq::new(
        repetitions(request),
        |i: int|
            ScheduledRequest {
                request: DispatchRequest { repeat: 1, ..request },
                due: planned_time(request, now, i),
            },
    )
}

impl DispatchSession {
    /// Starts a session on a new connection.
    pub fn connect(home: DispatchSide, config: LinkConfig, now: Moment) -> (result: DispatchSession)
        ensures
            result@ == (DispatchSessionState {
                home: home@,
                link: LinkState::fresh(LinkRole::Client, config, now.tick_ms),
                rounds: RoundsState::idle(),
                pending: Seq::empty(),
                scheduled: Seq::empty(),
                timeout_ms: saturated_product(config.t1_ms, 4),
            }),
            result@.link.consistent(),
    {
        let result = DispatchSession {
            home,
            link: LinkSession::new(LinkRole::Client, config, now.tick_ms),
            rounds: Rounds::new(),
            applications: PendingApplications::new(),
            scheduled: Vec::new(),
            timeout_ms: saturating_product(config.t1_ms, 4),
        };
        assert(result.scheduled@ =~= Seq::<ScheduledRequest>::empty());
        result
    }

    fn log(
        &mut self,
        now: Moment,
        direction: Direction,
        severity: Severity,
        category: LogCategory,
        summary: String,
    )
        ensures
            final(self)@ == old(self)@.log(now, direction, severity, category, summary@),
    {
        self.home.desk.log(now, direction, severity, category, summary);
    }

    fn give_up(&mut self, reason: &str, now: Moment)
        ensures
            final(self)@ == old(self)@.given_up(reason@, now),
    {
        abort_rounds(&mut self.rounds, reason, now, &mut self.home.desk);
        self.applications.abort_all(reason, now, &mut self.home.desk);
    }

    fn count(&mut self, before: usize)
        ensures
            final(self)@ == old(self)@.counted(before as nat),
    {
        let count: usize = self.applications.len();
        if count != before {
            self.home.desk.emit(RuntimeEvent::ApplicationPending(count));
        }
    }

    /// Takes in a unit. The floats are the renderings of those in the unit.
    pub fn handle_incoming(&mut self, asdu: &Asdu, floats: &Vec<String>, now: Moment)
        ensures
            final(self)@ == old(self)@.took(asdu@, texts(floats@), now),
    {
        let before: usize = self.applications.len();
        emit_current_values(asdu, self.home.common_address, floats, now, &mut self.home.desk);
        process_round(
            &mut self.rounds.general,
            SnapshotKind::General,
            asdu,
            floats,
            &self.home.expected,
            now,
            &mut self.home.desk,
        );
        process_round(
            &mut self.rounds.energy,
            SnapshotKind::Energy,
            asdu,
            floats,
            &self.home.expected,
            now,
            &mut self.home.desk,
        );
        self.applications.handle(asdu, now, &mut self.home.desk);
        self.count(before);
    }

    /// Takes in a frame of the other side.
    pub fn receive(&mut self, frame: Frame, floats: &Vec<String>, now: Moment) -> (result:
        SessionExit)
        requires
            old(self)@.link.consistent(),
        ensures
            (final(self)@, result) == old(self)@.received(frame@, texts(floats@), now),
            final(self)@.link.consistent(),
    {
        let processed = match self.link.process(frame, now.tick_ms) {
            Ok(processed) => processed,
            Err(text) => {
                let text = cat("调度链路处理失败: ".to_owned(), text.as_str());
                self.log(now, Direction::Internal, Severity::Error, LogCategory::Protocol, text);
                self.give_up("协议错误", now);
                return SessionExit::Disconnect;
            },
        };
        self.home.desk.transmit_all(processed.replies);
        self.home.desk.record_all(processed.events, now);
        if let Some(phase) = processed.phase_changed {
            self.home.desk.enter(phase, phase.label().to_owned());
            if phase == ConnectionPhase::ConnectedStopped {
                self.give_up("STOPDT", now);
            }
        }
        if let Some(asdu) = processed.asdu {
            self.handle_incoming(&asdu, floats, now);
        }
        SessionExit::Stay
    }

    /// The connection could not be read any more.
    pub fn read_failed(&mut self, reason: &str, now: Moment)
        ensures
            final(self)@ == old(self)@.log(
                now,
                Direction::Incoming,
                Severity::Warning,
                LogCategory::Connection,
                "调度连接已结束: "@ + reason@,
            ).given_up("连接断开"@, now),
    {
        let text = cat("调度连接已结束: ".to_owned(), reason);
        self.log(now, Direction::Incoming, Severity::Warning, LogCategory::Connection, text);
        self.give_up("连接断开", now);
    }

    /// The program ends.
    pub fn shut_down(&mut self, now: Moment)
        ensures
            final(self)@ == old(self)@.given_up("程序关闭"@, now),
    {
        self.give_up("程序关闭", now);
    }

    fn function_was_sent(&mut self, sent: Sent, keep_phase: bool, now: Moment, Ghost(function): Ghost<
        LinkFunction,
    >)
        requires
            (sent.octets@, sent.event@) == function_sent(function),
            keep_phase == (function is TestActivation),
        ensures
            final(self)@ == old(self)@.function_sent(function, now),
    {
        self.home.desk.transmit(sent.octets);
        if keep_phase {
            self.home.desk.record(sent.event, now);
        } else {
            self.home.desk.view.phase = self.link.phase();
            self.home.desk.record(sent.event, now);
            self.home.desk.show();
        }
    }

    fn command_link(&mut self, action: DispatchAction, now: Moment) -> (result: Result<(), String>)
        requires
            old(self)@.link.consistent(),
            action.link_only(),
        ensures
            (final(self)@, error_view(result)) == old(self)@.link_commanded(action, now),
            final(self)@.link.consistent(),
    {
        match action {
            DispatchAction::StartDt => match self.link.start_dt(now.tick_ms) {
                Ok(sent) => {
                    self.function_was_sent(sent, false, now, Ghost(LinkFunction::StartActivation));
                    Ok(())
                },
                Err(text) => Err(text),
            },
            DispatchAction::StopDt => match self.link.stop_dt(now.tick_ms) {
                Ok(sent) => {
                    self.function_was_sent(sent, false, now, Ghost(LinkFunction::StopActivation));
                    Ok(())
                },
                Err(text) => Err(text),
            },
            _ => match self.link.manual_test(now.tick_ms) {
                Ok(sent) => {
                    self.function_was_sent(sent, true, now, Ghost(LinkFunction::TestActivation));
                    Ok(())
                },
                Err(text) => Err(text),
            },
        }
    }

    /// Sends a command as what it became, and awaits its receipt.
    pub fn dispatch(
        &mut self,
        request: DispatchRequest,
        built: Result<Option<Asdu>, String>,
        now: Moment,
    ) -> (result: Result<(), String>)
        requires
            old(self)@.link.consistent(),
        ensures
            exists|expected: Result<Option<AsduView>, Seq<char>>| #[trigger]
                may_be_expected(
                    old(self)@.awaits(request, unit_view(built), now),
                    request,
                    expected,
                ) && (final(self)@, error_view(result)) == old(self)@.dispatched(request, unit_view(built), expected, now),
            final(self)@.link.consistent(),
            final(self)@.scheduled == old(self)@.scheduled,
    {
        let ghost became = unit_view(built);
        let ghost awaited = self@.awaits(request, became, now);
        assert(!awaited ==> may_be_expected(awaited, request, became));
        let unit = match built {
            Err(text) => {
                return Err(text);
            },
            Ok(None) => {
                let name = match request.action {
                    DispatchAction::StartDt => "StartDt",
                    DispatchAction::StopDt => "StopDt",
                    _ => "TestFr",
                };
                return Err(cat(cat("动作 ".to_owned(), name), " 没有应用层 ASDU"));
            },
            Ok(Some(unit)) => unit,
        };
        if let Err(text) = self.home.desk.send_unit(&mut self.link, unit, now) {
            self.rounds.abort(request.action, "发送失败", now, &mut self.home.desk);
            return Err(text);
        }
        let before: usize = self.applications.len();
        let result = self.applications.register(
            request,
            self.home.common_address,
            self.timeout_ms,
            now,
        );
        self.count(before);
        result
    }

    /// Sends the commands that are due.
    pub fn flush_scheduled(&mut self, now: Moment) -> (result: Result<(), String>)
        requires
            old(self)@.link.consistent(),
        ensures
            old(self)@.flushes(now, final(self)@, error_view(result)),
            final(self)@.link.consistent(),
    {
        while self.scheduled.len() > 0 && self.scheduled[0].due <= now.tick_ms
            invariant
                self@.link.consistent(),
                forall|after: DispatchSessionState, error: Option<Seq<char>>|
                    self@.flushes(now, after, error) ==> #[trigger] old(self)@.flushes(
                        now,
                        after,
                        error,
                    ),
            ensures
                self@.link.consistent(),
                !self@.due(now),
                forall|after: DispatchSessionState, error: Option<Seq<char>>|
                    self@.flushes(now, after, error) ==> #[trigger] old(self)@.flushes(
                        now,
                        after,
                        error,
                    ),
            decreases self.scheduled@.len(),
        {
            let ghost before = self@;
            let item = self.scheduled.remove(0);
            assert(self.scheduled@ =~= before.scheduled.skip(1));
            let ghost rest = self@;
            let built = build_dispatch_request(&item.request);
            let ghost became = unit_view(built);
            let outcome = self.dispatch(item.request, built, now);
            proof {
                let result = error_view(outcome);
                let expected = choose|expected: Result<Option<AsduView>, Seq<char>>| #[trigger]
                    may_be_expected(
                        rest.awaits(item.request, became, now),
                        item.request,
                        expected,
                    ) && (self@, result) == rest.dispatched(
                        item.request,
                        became,
                        expected,
                        now,
                    );
                assert(before.due(now));
                assert forall|after: DispatchSessionState, error: Option<Seq<char>>|
                    (if result is Some {
                        after == self@ && error == result
                    } else {
                        self@.flushes(now, after, error)
                    }) implies #[trigger] old(self)@.flushes(now, after, error) by {
                    assert(request_may_become(item.request, became));
                    assert(may_be_expected(
                        rest.awaits(item.request, became, now),
                        item.request,
                        expected,
                    ));
                    assert(before.flushes(now, after, error));
                }
            }
            if let Err(text) = outcome {
                return Err(text);
            }
        }
        Ok(())
    }

    fn schedule(&mut self, request: DispatchRequest, now: Moment)
        ensures
            final(self)@ == old(self)@.scheduling(request, now),
    {
        let ghost before = self.scheduled@;
        let repeat: u16 = if request.action == DispatchAction::GeneralInterrogation
            || request.action == DispatchAction::CounterInterrogation || request.repeat == 0 {
            1
        } else {
            request.repeat
        };
        let spacing: u64 = if request.interval_ms == 0 {
            1
        } else {
            request.interval_ms
        };
        let mut once = request;
        once.repeat = 1;
        let mut all: Vec<ScheduledRequest> = Vec::new();
        all.append(&mut self.scheduled);
        assert(all@ =~= before);
        let ghost plan = planned(request, now.tick_ms);
        let mut index: u16 = 0;
        while index < repeat
            invariant
                index <= repeat,
                repeat == repetitions(request),
                plan == planned(request, now.tick_ms),
                once == (DispatchRequest { repeat: 1, ..request }),
                spacing == (if request.interval_ms == 0 {
                    1u64
                } else {
                    request.interval_ms
                }),
                all@ == before + plan.take(index as int),
            decreases repeat - index,
        {
            let due: u64 = now.tick_ms.saturating_add(saturating_product(spacing, index as u64));
            all.push(ScheduledRequest { request: once, due });
            assert(plan[index as int] == all@.last());
            assert(all@ =~= before + plan.take(index + 1));
            index += 1;
        }
        assert(plan.take(index as int) =~= plan);
        self.scheduled = stable_sort(all, &RequestsByDue);
        assert(order_of::<ScheduledRequest, RequestsByDue>(&RequestsByDue)
            =~= requests_by_due());
    }

    fn reserve(&mut self, request: DispatchRequest, now: Moment) -> (result: Result<(), String>)
        ensures
            (final(self)@, error_view(result)) == old(self)@.reserving(request, now),
    {
        if request.action != DispatchAction::GeneralInterrogation && request.action
            != DispatchAction::CounterInterrogation {
            return Ok(());
        }
        if request.repeat > 1 {
            self.log(
                now,
                Direction::Internal,
                Severity::Warning,
                LogCategory::Interrogation,
                "召唤事务不支持重复发送，已按一次执行".to_owned(),
            );
        }
        let mut once = request;
        once.repeat = 1;
        self.rounds.reserve(
            &once,
            self.home.common_address,
            self.timeout_ms,
            now,
            &mut self.home.desk,
        )
    }

    /// Carries out a command of the operator.
    pub fn schedule_or_execute(&mut self, request: DispatchRequest, now: Moment) -> (result: Result<
        (),
        String,
    >)
        requires
            old(self)@.link.consistent(),
        ensures
            old(self)@.executes(request, now, final(self)@, error_view(result)),
            final(self)@.link.consistent(),
    {
        if matches!(
            request.action,
            DispatchAction::StartDt | DispatchAction::StopDt | DispatchAction::TestFr
        ) {
            return self.command_link(request.action, now);
        }
        if !self.link.is_active() {
            let text = cat("链路状态 ".to_owned(), self.link.phase().label());
            return Err(cat(text, "，需要先 STARTDT"));
        }
        let built = build_dispatch_request(&request);
        assert(request_may_become(request, unit_view(built)));
        if let Err(text) = built {
            return Err(text);
        }
        if let Err(text) = self.reserve(request, now) {
            return Err(text);
        }
        self.schedule(request, now);
        self.flush_scheduled(now)
    }
}

// ---------------------------------------------------------------------------
// Commands of the operator, and the clock.
impl DispatchSessionState {
    /// A command came while the side is connected: the reply to a reload.
    pub open spec fn commanded(
        self,
        command: DispatchCommand,
        now: Moment,
        after: DispatchSessionState,
        reply: Option<Option<Seq<char>>>,
    ) -> bool {
        match command {
            DispatchCommand::PrepareReload { generation, points } => if self.idle() {
                after == self.with_home(
                    self.home.preparing(generation, dispatch_views(points@)),
                ) && reply == Some(None::<Seq<char>>)
            } else {
                after == self && reply == Some(
                    Some("调度侧存在未完成召唤、应用回执或定时发送"@),
                )
            },
            DispatchCommand::CommitReload { generation } => if self.idle() {
                let (home, error) = self.home.committing(generation, now);
                after == self.with_home(home) && reply == Some(error)
            } else {
                after == self && reply == Some(
                    Some("调度侧提交时出现未完成召唤、应用回执或定时发送"@),
                )
            },
            DispatchCommand::AbortReload(generation) => {
                after == self.with_home(self.home.aborting(generation)) && reply is None
            },
            DispatchCommand::Execute(request) => {
                &&& reply is None
                &&& if self.home.prepared is Some {
                    after == self.log(
                        now,
                        Direction::Internal,
                        Severity::Warning,
                        LogCategory::Configuration,
                        request.action.label_text()
                            + "本地拒绝：点表重载已准备，等待提交或取消"@,
                    )
                } else {
                    exists|mid: DispatchSessionState, error: Option<Seq<char>>| #[trigger]
                        self.executes(request, now, mid, error) && after == (match error {
                            None => mid,
                            Some(text) => mid.log(
                                now,
                                Direction::Internal,
                                Severity::Error,
                                LogCategory::Control,
                                "调度指令本地拒绝: "@ + text,
                            ),
                        })
                }
            },
        }
    }

    /// What took too long is given up.
    pub open spec fn expired(self, now: Moment) -> DispatchSessionState {
        let (rounds, mid) = self.rounds.expired(self.home.desk, now);
        let (pending, desk) = pending_expired(self.pending, mid, now);
        DispatchSessionState { rounds, pending, ..self.with_desk(desk) }
    }

    /// The clock moved on.
    pub open spec fn ticks(
        self,
        now: Moment,
        after: DispatchSessionState,
        exit: SessionExit,
    ) -> bool {
        let (link, ticked) = after_tick(self.link, now.tick_ms);
        let moved = DispatchSessionState { link, ..self }.with_desk(
            self.home.desk.transmit_all(ticked.replies),
        );
        match ticked.outcome {
            Err(text) => {
                &&& exit is Disconnect
                &&& after == moved.log(
                    now,
                    Direction::Internal,
                    Severity::Error,
                    LogCategory::KeepAlive,
                    "调度链路计时器失败: "@ + text,
                ).given_up("链路 T1 超时"@, now)
            },
            Ok(events) => {
                let recorded = moved.with_desk(moved.home.desk.record_all(events, now));
                &&& exit is Stay
                &&& exists|mid: DispatchSessionState, error: Option<Seq<char>>| #[trigger]
                    recorded.flushes(now, mid, error) && after == (match error {
                        None => mid,
                        Some(text) => mid.log(
                            now,
                            Direction::Internal,
                            Severity::Error,
                            LogCategory::Control,
                            "发送调度指令失败: "@ + text,
                        ),
                    }).expired(now)
            },
        }
    }
}

impl DispatchSession {
    fn is_idle(&self) -> (result: bool)
        ensures
            result == self@.idle(),
    {
        self.rounds.is_idle() && self.applications.is_empty() && self.scheduled.len() == 0
    }

    /// Carries out a command while the side is connected.
    pub fn command(&mut self, command: DispatchCommand, now: Moment) -> (result: Option<
        Result<(), String>,
    >)
        requires
            old(self)@.link.consistent(),
        ensures
            old(self)@.commanded(command, now, final(self)@, reply_view(result)),
            final(self)@.link.consistent(),
    {
        match command {
            DispatchCommand::PrepareReload { generation, points } => {
                if self.is_idle() {
                    self.home.prepare(generation, points);
                    Some(Ok(()))
                } else {
                    Some(Err("调度侧存在未完成召唤、应用回执或定时发送".to_owned()))
                }
            },
            DispatchCommand::CommitReload { generation } => {
                if self.is_idle() {
                    Some(self.home.commit_expected_reload(generation, now))
                } else {
                    Some(Err("调度侧提交时出现未完成召唤、应用回执或定时发送".to_owned()))
                }
            },
            DispatchCommand::AbortReload(generation) => {
                self.home.abort_expected_reload(generation);
                None
            },
            DispatchCommand::Execute(request) => {
                if self.home.prepared.is_some() {
                    let text = cat(
                        request.action.label().to_owned(),
                        "本地拒绝：点表重载已准备，等待提交或取消",
                    );
                    self.log(
                        now,
                        Direction::Internal,
                        Severity::Warning,
                        LogCategory::Configuration,
                        text,
                    );
                    return None;
                }
                let result = self.schedule_or_execute(request, now);
                let ghost mid = self@;
                assert(old(self)@.executes(request, now, mid, error_view(result)));
                if let Err(text) = result {
                    let text = cat("调度指令本地拒绝: ".to_owned(), text.as_str());
                    self.log(now, Direction::Internal, Severity::Error, LogCategory::Control, text);
                }
                None
            },
        }
    }

    /// Looks at the timers, sends what is due and gives up what took too long.
    pub fn tick(&mut self, now: Moment) -> (result: SessionExit)
        requires
            old(self)@.link.consistent(),
        ensures
            old(self)@.ticks(now, final(self)@, result),
            final(self)@.link.consistent(),
    {
        let ticked = self.link.tick(now.tick_ms);
        self.home.desk.transmit_all(ticked.replies);
        match ticked.outcome {
            Ok(events) => {
                self.home.desk.record_all(events, now);
            },
            Err(text) => {
                let text = cat("调度链路计时器失败: ".to_owned(), text.as_str());
                self.log(now, Direction::Internal, Severity::Error, LogCategory::KeepAlive, text);
                self.give_up("链路 T1 超时", now);
                return SessionExit::Disconnect;
            },
        }
        let ghost recorded = self@;
        let result = self.flush_scheduled(now);
        assert(recorded.flushes(now, self@, error_view(result)));
        if let Err(text) = result {
            let text = cat("发送调度指令失败: ".to_owned(), text.as_str());
            self.log(now, Direction::Internal, Severity::Error, LogCategory::Control, text);
        }
        expire_rounds(&mut self.rounds, now, &mut self.home.desk);
        self.applications.expire(now, &mut self.home.desk);
        SessionExit::Stay
    }
}

// ---------------------------------------------------------------------------
// Laws of the dispatching side.
/// Values of another station, negative ones and those of a test are not shown.
pub proof fn law_foreign_values_are_not_shown(
    desk: DeskState,
    common_address: u16,
    asdu: AsduView,
    floats: Seq<Seq<char>>,
    now: Moment,
)
    ensures
        values_shown(desk, common_address, asdu, floats, now) != desk ==> asdu.address_field
            == common_address && !asdu.test && !asdu.negative,
        asdu.address_field == common_address && !asdu.test && !asdu.negative && unit_rows(
            asdu,
            floats,
            now.wall_ms,
        ).len() > 0 ==> values_shown(desk, common_address, asdu, floats, now).outputs
            == desk.outputs.push(
            OutputView::Event(
                EventView::DispatchValues {
                    kind: if asdu.type_id is M_IT_NA_1 {
                        SnapshotKind::Energy
                    } else {
                        SnapshotKind::General
                    },
                    values: unit_rows(asdu, floats, now.wall_ms),
                },
            ),
        ),
{
}

/// Values that come by themselves change no round and no pending command.
pub proof fn law_values_need_no_round(
    state: DispatchSessionState,
    asdu: AsduView,
    floats: Seq<Seq<char>>,
    now: Moment,
)
    requires
        state.rounds == RoundsState::idle(),
        !crate::protocol::receipt::application_receipt(asdu),
    ensures
        state.took(asdu, floats, now) == state.with_desk(
            values_shown(state.home.desk, state.home.common_address, asdu, floats, now),
        ),
{
}

/// A point table is prepared and committed only while nothing is under way, and
/// while one is prepared no command is sent.
pub proof fn law_reload_waits_for_idle(
    state: DispatchSessionState,
    command: DispatchCommand,
    now: Moment,
    after: DispatchSessionState,
    reply: Option<Option<Seq<char>>>,
)
    requires
        state.commanded(command, now, after, reply),
    ensures
        !state.idle() && (command is PrepareReload || command is CommitReload) ==> after == state
            && reply matches Some(Some(_)),
        state.home.prepared is Some && command is Execute ==> after.link == state.link
            && after.scheduled == state.scheduled && after.rounds == state.rounds && after.pending
            == state.pending,
{
}

/// A prepared table takes effect only when it is committed under its own
/// generation; preparing and dropping it leave the points as they were, and
/// nothing but the points changes with it.
pub proof fn law_expected_reload_in_two_steps(
    state: DispatchState,
    generation: u64,
    other: u64,
    points: Seq<DispatchPointView>,
    now: Moment,
)
    requires
        other != generation,
    ensures
        ({
            let prepared = state.preparing(generation, points);
            let (committed, error) = prepared.committing(generation, now);
            &&& prepared.points == state.points
            &&& prepared.aborting(generation).points == state.points
            &&& prepared.aborting(generation).prepared is None
            &&& prepared.aborting(other) == prepared
            &&& prepared.committing(other, now).0 == prepared
            &&& prepared.committing(other, now).1 is Some
            &&& error is None
            &&& committed.prepared is None
            &&& committed.points == points
            &&& committed.common_address == state.common_address
            &&& committed.t0_ms == state.t0_ms
            &&& committed.reconnect_ms == state.reconnect_ms
            &&& committed.desk.view == state.desk.view
        }),
{
}

/// No unit is sent before the transfer is started: a command that needs it is
/// refused, and nothing changes.
pub proof fn law_commands_need_an_active_link(
    state: DispatchSessionState,
    request: DispatchRequest,
    now: Moment,
    after: DispatchSessionState,
    error: Option<Seq<char>>,
)
    requires
        state.executes(request, now, after, error),
        !state.link.active(),
        !request.action.link_only(),
    ensures
        after == state,
        error is Some,
{
}

/// A command is scheduled as often as it asks for, an interrogation once, and
/// what is scheduled is in the order of its times.
pub proof fn law_schedule_is_in_order(
    state: DispatchSessionState,
    request: DispatchRequest,
    now: Moment,
)
    ensures
        ({
            let after = state.scheduling(request, now).scheduled;
            &&& after.len() == state.scheduled.len() + repetitions(request)
            &&& crate::order::in_order(after, requests_by_due())
            &&& after.to_multiset() == (state.scheduled + planned(
                request,
                now.tick_ms,
            )).to_multiset()
        }),
{
    crate::order::law_sorting(state.scheduled + planned(request, now.tick_ms), requests_by_due());
    assert(crate::order::total_order(requests_by_due()));
}

/// Ending a session gives up everything that is under way.
pub proof fn law_ending_gives_everything_up(
    state: DispatchSessionState,
    reason: Seq<char>,
    now: Moment,
)
    ensures
        state.given_up(reason, now).rounds == RoundsState::idle(),
        state.given_up(reason, now).pending.len() == 0,
{
}

// ---------------------------------------------------------------------------
// Laws of sending commands.
/// How often a command goes out: an interrogation once, and any other as often as
/// it asks for, but at least once.
pub open spec fn times_sent(request: DispatchRequest) -> int {
    if request.action is GeneralInterrogation || request.action is CounterInterrogation {
        1
    } else if request.repeat == 0 {
        1
    } else {
        request.repeat as int
    }
}

/// When a command goes out for the `index`-th time: at once for the first time,
/// and then each time its interval later, or a millisecond later where it has
/// none.
pub open spec fn time_sent(request: DispatchRequest, now: u64, index: int) -> int {
    let time = now + index * (if request.interval_ms == 0 {
        1
    } else {
        request.interval_ms as int
    });
    if time <= u64::MAX {
        time
    } else {
        u64::MAX as int
    }
}

/// A command is scheduled beside what is scheduled already, as often as it goes
/// out and for the times of that, each time for one sending of what was asked;
/// what is earlier stands first.
pub proof fn law_commands_are_scheduled_for_their_times(
    state: DispatchSessionState,
    request: DispatchRequest,
    now: Moment,
)
    ensures
        ({
            let after = state.scheduling(request, now);
            &&& after == (DispatchSessionState { scheduled: after.scheduled, ..state })
            &&& after.scheduled.len() == state.scheduled.len() + times_sent(request)
            &&& forall|i: int, j: int|
                0 <= i < j < after.scheduled.len() ==> (#[trigger] after.scheduled[i]).due <= (
                #[trigger] after.scheduled[j]).due
            &&& exists|added: Seq<ScheduledRequest>|
                {
                    &&& added.len() == times_sent(request)
                    &&& forall|i: int|
                        0 <= i < added.len() ==> (#[trigger] added[i]).due == time_sent(
                            request,
                            now.tick_ms,
                            i,
                        ) && added[i].request == (DispatchRequest { repeat: 1, ..request })
                    &&& after.scheduled.to_multiset() == #[trigger] (state.scheduled
                        + added).to_multiset()
                }
        }),
{
    law_schedule_is_in_order(state, request, now);
    let after = state.scheduling(request, now);
    let added = planned(request, now.tick_ms);
    assert forall|i: int, j: int| 0 <= i < j < after.scheduled.len() implies (
    #[trigger] after.scheduled[i]).due <= (#[trigger] after.scheduled[j]).due by {
        assert(requests_by_due()(after.scheduled[i], after.scheduled[j]));
    }
    assert forall|i: int| 0 <= i < added.len() implies (#[trigger] added[i]).due == time_sent(
        request,
        now.tick_ms,
        i,
    ) && added[i].request == (DispatchRequest { repeat: 1, ..request }) by {
        let spacing = if request.interval_ms == 0 {
            1u64
        } else {
            request.interval_ms
        };
        assert(0 <= i <= u16::MAX);
        assert(spacing * (i as u64) == i * spacing) by (nonlinear_arith)
            requires
                0 <= i <= u16::MAX,
        ;
        assert(i * spacing >= 0) by (nonlinear_arith)
            requires
                i >= 0,
        ;
    }
}

/// A command that is only for the link goes out as its function, at once and by
/// itself; where the link refuses it, nothing goes out. The phase of the link is
/// shown with a start or a stop.
pub proof fn law_link_commands_go_out_as_functions(
    state: DispatchSessionState,
    request: DispatchRequest,
    now: Moment,
    after: DispatchSessionState,
    error: Option<Seq<char>>,
)
    requires
        state.executes(request, now, after, error),
        request.action is StartDt || request.action is StopDt || request.action is TestFr,
    ensures
        error is Some ==> after.home == state.home,
        error is None ==> {
            let code: u8 = if request.action is StartDt {
                0x07
            } else if request.action is StopDt {
                0x13
            } else {
                0x43
            };
            &&& after.home.desk.outputs.len() > state.home.desk.outputs.len()
            &&& after.home.desk.outputs.take(state.home.desk.outputs.len() as int)
                == state.home.desk.outputs
            &&& after.home.desk.outputs[state.home.desk.outputs.len() as int]
                == OutputView::Transmit(seq![0x68u8, 4, code, 0, 0, 0])
            &&& request.action !is TestFr ==> after.home.desk.view.phase == after.link.phase
            &&& request.action is StartDt ==> after.link.phase is Starting
            &&& request.action is StopDt ==> after.link.phase is Stopping
            &&& request.action is TestFr ==> after.link.phase == state.link.phase
        },
        after.rounds == state.rounds,
        after.pending == state.pending,
        after.scheduled == state.scheduled,
{
    assert(function_sent(LinkFunction::StartActivation).0 =~= seq![0x68u8, 4, 0x07, 0, 0, 0]);
    assert(function_sent(LinkFunction::StopActivation).0 =~= seq![0x68u8, 4, 0x13, 0, 0, 0]);
    assert(function_sent(LinkFunction::TestActivation).0 =~= seq![0x68u8, 4, 0x43, 0, 0, 0]);
    assert(after.home.desk.outputs.take(state.home.desk.outputs.len() as int)
        =~= state.home.desk.outputs);
}

/// A command is refused while the transfer is not started, unless it is only for
/// the link. An interrogation begins its round, or is refused while one is under
/// way; what is refused is not scheduled.
pub proof fn law_interrogations_are_reserved(
    state: DispatchSessionState,
    request: DispatchRequest,
    now: Moment,
)
    ensures
        ({
            let (after, refusal) = state.reserving(request, now);
            let busy = if request.action is GeneralInterrogation {
                state.rounds.general is Some
            } else {
                state.rounds.energy is Some
            };
            let asks = request.action is GeneralInterrogation || request.action
                is CounterInterrogation;
            &&& !asks ==> after == state && refusal is None
            &&& asks ==> (refusal is Some <==> busy)
            &&& refusal is Some ==> after.rounds == state.rounds
            &&& asks && refusal is None && request.action is GeneralInterrogation
                ==> after.rounds.general is Some && after.rounds.energy == state.rounds.energy
            &&& asks && refusal is None && request.action is CounterInterrogation
                ==> after.rounds.energy is Some && after.rounds.general == state.rounds.general
            &&& after.scheduled == state.scheduled && after.pending == state.pending && after.link
                == state.link
        }),
{
}

/// A command goes out as the one unit that it became. Where it cannot be sent,
/// no receipt is awaited and its round is over; where it is sent, how many
/// receipts are awaited is reported if it changed.
pub proof fn law_commands_go_out_as_their_units(
    state: DispatchSessionState,
    request: DispatchRequest,
    built: Result<Option<AsduView>, Seq<char>>,
    expected: Result<Option<AsduView>, Seq<char>>,
    now: Moment,
)
    ensures
        ({
            let (after, error) = state.dispatched(request, built, expected, now);
            match built {
                Ok(Some(unit)) => {
                    let (desk, link, failure) = after_send_unit(
                        state.home.desk,
                        state.link,
                        unit,
                        now,
                    );
                    &&& after.link == link
                    &&& after.scheduled == state.scheduled
                    &&& failure is Some ==> {
                        &&& error == failure
                        &&& after.pending == state.pending
                        &&& request.action is GeneralInterrogation ==> after.rounds.general is None
                            && after.rounds.energy == state.rounds.energy
                        &&& request.action is CounterInterrogation ==> after.rounds.energy is None
                            && after.rounds.general == state.rounds.general
                        &&& request.action !is GeneralInterrogation && request.action
                            !is CounterInterrogation ==> after.rounds == state.rounds
                            && after.home.desk == desk
                    }
                    &&& failure is None ==> {
                        &&& after.rounds == state.rounds
                        &&& (after.pending, error) == registered(
                            state.pending,
                            request,
                            expected,
                            state.home.common_address,
                            state.timeout_ms,
                            now,
                        )
                        &&& after.home.desk == (if after.pending.len() == state.pending.len() {
                            desk
                        } else {
                            desk.emit(EventView::ApplicationPending(after.pending.len() as usize))
                        })
                    }
                },
                _ => after == state && error is Some,
            }
        }),
{
}

proof fn lemma_dispatched_keeps_the_schedule(
    state: DispatchSessionState,
    request: DispatchRequest,
    built: Result<Option<AsduView>, Seq<char>>,
    expected: Result<Option<AsduView>, Seq<char>>,
    now: Moment,
)
    ensures
        state.dispatched(request, built, expected, now).0.scheduled == state.scheduled,
        state.dispatched(request, built, expected, now).0.home.points == state.home.points,
        state.dispatched(request, built, expected, now).0.home.prepared == state.home.prepared,
        state.dispatched(request, built, expected, now).0.timeout_ms == state.timeout_ms,
{
}

/// What is due goes out from the first on; after that nothing is due, unless
/// something could not be sent. Nothing that is not due goes out.
pub proof fn law_only_what_is_due_goes_out(
    state: DispatchSessionState,
    now: Moment,
    after: DispatchSessionState,
    error: Option<Seq<char>>,
) -> (sent: int)
    requires
        state.flushes(now, after, error),
    ensures
        0 <= sent <= state.scheduled.len(),
        after.scheduled == state.scheduled.skip(sent),
        forall|i: int| 0 <= i < sent ==> (#[trigger] state.scheduled[i]).due <= now.tick_ms,
        error is None && sent < state.scheduled.len() ==> state.scheduled[sent].due > now.tick_ms,
        sent == 0 ==> after == state && error is None,
        after.home.points == state.home.points,
        after.home.prepared == state.home.prepared,
        after.timeout_ms == state.timeout_ms,
    decreases state.scheduled.len(),
{
    if !state.due(now) {
        assert(state.scheduled.skip(0) =~= state.scheduled);
        0
    } else {
        let request = state.scheduled[0].request;
        let rest = DispatchSessionState { scheduled: state.scheduled.skip(1), ..state };
        let (built, expected) = choose|
            built: Result<Option<AsduView>, Seq<char>>,
            expected: Result<Option<AsduView>, Seq<char>>,
        |
            #[trigger] request_may_become(request, built) && #[trigger] may_be_expected(
                rest.awaits(request, built, now),
                request,
                expected,
            ) && {
                let (mid, failure) = rest.dispatched(request, built, expected, now);
                if failure is Some || mid.scheduled.len() >= state.scheduled.len() {
                    after == mid && error == failure
                } else {
                    mid.flushes(now, after, error)
                }
            };
        lemma_dispatched_keeps_the_schedule(rest, request, built, expected, now);
        let (mid, failure) = rest.dispatched(request, built, expected, now);
        if failure is Some {
            1
        } else {
            let later = law_only_what_is_due_goes_out(mid, now, after, error);
            assert(state.scheduled.skip(1).skip(later) =~= state.scheduled.skip(later + 1));
            assert forall|i: int| 0 <= i < later + 1 implies (#[trigger] state.scheduled[i]).due
                <= now.tick_ms by {
                if i > 0 {
                    assert(mid.scheduled[i - 1] == state.scheduled[i]);
                }
            }
            if later < mid.scheduled.len() {
                assert(mid.scheduled[later] == state.scheduled[later + 1]);
            }
            later + 1
        }
    }
}

// ---------------------------------------------------------------------------
// Laws of what comes in.
/// A unit is shown, offered to both rounds and to the commands that await a
/// receipt, in this order; the rest of the side stays as it is, and how many
/// receipts are awaited is reported if it changed.
pub proof fn law_units_reach_rounds_and_commands(
    state: DispatchSessionState,
    asdu: AsduView,
    floats: Seq<Seq<char>>,
    now: Moment,
)
    ensures
        ({
            let after = state.took(asdu, floats, now);
            let shown = values_shown(
                state.home.desk,
                state.home.common_address,
                asdu,
                floats,
                now,
            );
            let general = after_unit(
                state.rounds.general,
                shown,
                SnapshotKind::General,
                asdu,
                floats,
                state.home.points,
                now,
            );
            let energy = after_unit(
                state.rounds.energy,
                general.1,
                SnapshotKind::Energy,
                asdu,
                floats,
                state.home.points,
                now,
            );
            let receipt = receipt_handled(state.pending, energy.1, asdu, now);
            &&& after.rounds.general == general.0
            &&& after.rounds.energy == energy.0
            &&& after.pending == receipt.0
            &&& after.scheduled == state.scheduled
            &&& after.link == state.link
            &&& after.home.points == state.home.points
            &&& after.home.desk == (if receipt.0.len() == state.pending.len() {
                receipt.1
            } else {
                receipt.1.emit(EventView::ApplicationPending(receipt.0.len() as usize))
            })
        }),
{
}

/// A frame that breaks the rules of the link closes it and gives up what is under
/// way. A link that stops gives that up as well, but stays open. Any other
/// frame changes rounds and receipts only by the unit that it carries.
pub proof fn law_frames_keep_or_end_the_session(
    state: DispatchSessionState,
    frame: FrameView,
    floats: Seq<Seq<char>>,
    now: Moment,
)
    ensures
        ({
            let (link, outcome) = after_frame(state.link, frame, now.tick_ms);
            let (after, exit) = state.received(frame, floats, now);
            &&& after.link == link
            &&& after.scheduled == state.scheduled
            &&& after.home.points == state.home.points
            &&& exit is Disconnect <==> outcome is Err
            &&& outcome is Err ==> after.rounds.general is None && after.rounds.energy is None
                && after.pending.len() == 0
            &&& outcome matches Ok(processed) ==> {
                let stops = processed.phase_changed == Some(ConnectionPhase::ConnectedStopped);
                match processed.asdu {
                    None => if stops {
                        after.rounds.general is None && after.rounds.energy is None
                            && after.pending.len() == 0
                    } else {
                        after.rounds == state.rounds && after.pending == state.pending
                    },
                    Some(asdu) => exists|before: DispatchSessionState|
                        {
                            &&& after == #[trigger] before.took(asdu, floats, now)
                            &&& before.link == link
                            &&& stops ==> before.rounds.general is None && before.rounds.energy
                                is None && before.pending.len() == 0
                            &&& !stops ==> before.rounds == state.rounds && before.pending
                                == state.pending
                        },
                }
            }
        }),
{
    let (link, outcome) = after_frame(state.link, frame, now.tick_ms);
    if let Ok(processed) = outcome {
        if let Some(asdu) = processed.asdu {
            let heard = DispatchSessionState { link, ..state };
            let recorded = heard.with_desk(
                state.home.desk.transmit_all(processed.replies).record_all(processed.events, now),
            );
            let shown = match processed.phase_changed {
                Some(phase) => {
                    let entered = recorded.with_desk(
                        recorded.home.desk.enter(phase, phase.label_text()),
                    );
                    if phase is ConnectedStopped {
                        entered.given_up("STOPDT"@, now)
                    } else {
                        entered
                    }
                },
                None => recorded,
            };
            assert(state.received(frame, floats, now).0 == shown.took(asdu, floats, now));
        }
    }
}

/// Time closes the session where the link fails, and gives up what is under way.
/// Else it brings what is due, and gives up the rounds and receipts whose time is
/// over, and no others that were under way before.
pub proof fn law_time_brings_commands_and_ends_waiting(
    state: DispatchSessionState,
    now: Moment,
    after: DispatchSessionState,
    exit: SessionExit,
)
    requires
        state.ticks(now, after, exit),
    ensures
        ({
            let (link, ticked) = after_tick(state.link, now.tick_ms);
            &&& exit is Disconnect <==> ticked.outcome is Err
            &&& exit is Disconnect ==> after.rounds.general is None && after.rounds.energy is None
                && after.pending.len() == 0 && after.scheduled == state.scheduled
            &&& exit is Stay ==> {
                &&& after.rounds.general matches Some(round) ==> now.tick_ms < round.deadline
                &&& after.rounds.energy matches Some(round) ==> now.tick_ms < round.deadline
                &&& after.scheduled.len() <= state.scheduled.len()
                &&& after.home.points == state.home.points
                &&& state.scheduled.len() == 0 || state.scheduled[0].due > now.tick_ms ==> {
                    &&& after.scheduled == state.scheduled
                    &&& (state.rounds.general matches Some(round) && now.tick_ms < round.deadline)
                        ==> after.rounds.general == state.rounds.general
                    &&& (state.rounds.energy matches Some(round) && now.tick_ms < round.deadline)
                        ==> after.rounds.energy == state.rounds.energy
                }
            }
        }),
{
    let (link, ticked) = after_tick(state.link, now.tick_ms);
    if let Ok(events) = ticked.outcome {
        let moved = DispatchSessionState { link, ..state }.with_desk(
            state.home.desk.transmit_all(ticked.replies),
        );
        let recorded = moved.with_desk(moved.home.desk.record_all(events, now));
        let (mid, error) = choose|mid: DispatchSessionState, error: Option<Seq<char>>| #[trigger]
            recorded.flushes(now, mid, error) && after == (match error {
                None => mid,
                Some(text) => mid.log(
                    now,
                    Direction::Internal,
                    Severity::Error,
                    LogCategory::Control,
                    "发送调度指令失败: "@ + text,
                ),
            }).expired(now);
        let sent = law_only_what_is_due_goes_out(recorded, now, mid, error);
        assert(sent == 0 || state.scheduled[0].due <= now.tick_ms);
    }
}

/// A table is prepared or committed exactly while no interrogation, no receipt
/// and no sending is under way; while one is prepared, a command is refused and
/// nothing is sent. What cannot be carried out is logged as an error.
pub proof fn law_reloads_and_commands_exclude_each_other(
    state: DispatchSessionState,
    command: DispatchCommand,
    now: Moment,
    after: DispatchSessionState,
    reply: Option<Option<Seq<char>>>,
)
    requires
        state.commanded(command, now, after, reply),
    ensures
        ({
            let quiet = state.rounds.general is None && state.rounds.energy is None
                && state.pending.len() == 0 && state.scheduled.len() == 0;
            &&& command is PrepareReload ==> (reply == Some(None::<Seq<char>>) <==> quiet)
            &&& command is PrepareReload ==> after.home.points == state.home.points && (
            after.home.prepared is Some || !quiet)
            &&& command matches DispatchCommand::CommitReload { generation } ==> (reply == Some(None::<Seq<char>>)
                <==> quiet && (state.home.prepared matches Some((waiting, _)) && waiting
                == generation))
            &&& command matches DispatchCommand::CommitReload { generation } ==> reply == Some(
                None::<Seq<char>>,
            ) ==> state.home.prepared == Some((generation, after.home.points))
                && after.home.prepared is None
            &&& command is CommitReload && reply != Some(None::<Seq<char>>) ==> after == state
            &&& command is AbortReload ==> reply is None && after.home.points == state.home.points
            &&& command is Execute && state.home.prepared is Some ==> reply is None && after.link
                == state.link && after.scheduled == state.scheduled && after.rounds
                == state.rounds && after.pending == state.pending
                && after.home.desk.outputs.len() == state.home.desk.outputs.len() + 1
                && after.home.desk.outputs.last() is Event
        }),
{
    if let DispatchCommand::CommitReload { .. } = command {
        if state.rounds.general is None && state.rounds.energy is None && state.pending.len() == 0
            && state.scheduled.len() == 0 {
            assert(state.idle());
        }
    }
}

/// Without a connection a command is refused with a warning, and nothing is
/// sent; before it connects again, the side waits as long as it is told to.
pub proof fn law_commands_need_a_connection(
    state: DispatchState,
    request: DispatchRequest,
    now: Moment,
)
    ensures
        ({
            let (after, reply) = state.commanded(DispatchCommand::Execute(request), now);
            &&& reply is None
            &&& after.points == state.points && after.prepared == state.prepared
            &&& after.desk.outputs.len() == state.desk.outputs.len() + 1
            &&& after.desk.outputs.last() matches OutputView::Event(EventView::Log(entry))
                && entry.severity is Warning
        }),
        state.waiting().desk.view.phase is ReconnectWait,
        state.waiting().desk.view.detail == decimal(state.reconnect_ms as nat) + " ms 后重试"@,
{
}

/// Four times the time of the first timer is how long an answer may take, or
/// as long as can be told.
pub proof fn law_answers_may_take_four_timers(t1_ms: u64)
    ensures
        4 * t1_ms <= u64::MAX ==> saturated_product(t1_ms, 4) == 4 * t1_ms,
        4 * t1_ms > u64::MAX ==> saturated_product(t1_ms, 4) == u64::MAX,
{
}

} // verus!
