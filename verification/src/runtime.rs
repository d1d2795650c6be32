//! What the operator sees, and how commands and reloads of the point tables are
//! coordinated between the two sides.

use crate::config::{
    copy_dispatch_points, dispatch_views, endpoint, endpoint_text, CollectPointConfig,
    DispatchPointConfig, ToolConfig,
};
use crate::model::{
    log_views, plain_log, rows, text_view, AppSnapshot, CollectCommand, ConnectionPhase,
    ConnectionState, ConnectionView, Direction, DispatchAction, DispatchCommand, EventView,
    LogCategory, LogEntry, LogView, PointRow, PointView, RuntimeCommand, RuntimeEvent, Severity,
    Side, SnapshotKind, SnapshotState, UploadKind,
};
use crate::order::{in_order, sorted_by};
use crate::protocol::collect::reply_view;
use crate::protocol::wire::saturated_sum;
use crate::table::{
    distinct_rows, fill, filled, has_place, keep, kept, law_merging_settles, law_rank_is_an_order,
    rows_by_rank, sort_by_rank, Agreement,
};
use crate::text::{cat, cat_number, decimal, join, joined, texts};
use std::collections::VecDeque;
use vstd::prelude::*;

verus! {

// ---------------------------------------------------------------------------
// Logs.
/// A log with one more entry, of which no more than `capacity` stay.
pub open spec fn logged(logs: Seq<LogView>, capacity: usize, entry: LogView) -> Seq<LogView> {
    if logs.len() < capacity {
        logs.push(entry)
    } else {
        logs.skip(logs.len() - capacity + 1).push(entry)
    }
}

pub fn push_log(logs: &mut VecDeque<LogEntry>, capacity: usize, entry: LogEntry)
    requires
        capacity > 0,
    ensures
        log_views(final(logs)@) == logged(log_views(old(logs)@), capacity, entry@),
{
    let ghost all = logs@;
    let ghost mut dropped: int = 0;
    assert(all.skip(0) =~= all);
    while logs.len() >= capacity
        invariant
            capacity > 0,
            0 <= dropped <= all.len(),
            logs@ == all.skip(dropped),
            dropped == 0 || all.len() - dropped >= capacity - 1,
        decreases logs@.len(),
    {
        let _ = logs.pop_front();
        proof {
            assert(all.skip(dropped).skip(1) =~= all.skip(dropped + 1));
            dropped = dropped + 1;
            assert(logs@ =~= all.skip(dropped));
        }
    }
    logs.push_back(entry);
    assert(log_views(logs@) =~= logged(log_views(all), capacity, entry@));
}

impl SnapshotState {
    /// An entry goes to the log of its side.
    pub open spec fn log(self, capacity: usize, entry: LogView) -> SnapshotState {
        match entry.side {
            Side::Collect => SnapshotState {
                collect_logs: logged(self.collect_logs, capacity, entry),
                ..self
            },
            Side::Dispatch => SnapshotState {
                dispatch_logs: logged(self.dispatch_logs, capacity, entry),
                ..self
            },
            Side::System => SnapshotState {
                system_logs: logged(self.system_logs, capacity, entry),
                ..self
            },
        }
    }

    pub open spec fn system(
        self,
        capacity: usize,
        at: u64,
        severity: Severity,
        message: Seq<char>,
    ) -> SnapshotState {
        self.log(
            capacity,
            plain_log(
                at,
                Side::System,
                Direction::Internal,
                severity,
                LogCategory::Configuration,
                message,
            ),
        )
    }

    pub open spec fn divided(
        self,
        capacity: usize,
        at: u64,
        side: Side,
        label: Seq<char>,
    ) -> SnapshotState {
        self.log(
            capacity,
            plain_log(
                at,
                side,
                Direction::Internal,
                Severity::Normal,
                LogCategory::CommandDivider,
                "━━━━━━━━━━ 手工下发："@ + label + " ━━━━━━━━━━"@,
            ),
        )
    }
}

fn push_entry(snapshot: &mut AppSnapshot, capacity: usize, entry: LogEntry)
    requires
        capacity > 0,
    ensures
        final(snapshot)@ == old(snapshot)@.log(capacity, entry@),
{
    match entry.side {
        Side::Collect => push_log(&mut snapshot.collect_logs, capacity, entry),
        Side::Dispatch => push_log(&mut snapshot.dispatch_logs, capacity, entry),
        Side::System => push_log(&mut snapshot.system_logs, capacity, entry),
    }
}

fn push_system(
    snapshot: &mut AppSnapshot,
    capacity: usize,
    at: u64,
    severity: Severity,
    message: String,
)
    requires
        capacity > 0,
    ensures
        final(snapshot)@ == old(snapshot)@.system(capacity, at, severity, message@),
{
    let entry = LogEntry::at(
        at,
        Side::System,
        Direction::Internal,
        severity,
        LogCategory::Configuration,
        message,
    );
    push_entry(snapshot, capacity, entry);
}

/// Logs something that went wrong in the station itself.
pub fn push_system_error(snapshot: &mut AppSnapshot, capacity: usize, at: u64, message: String)
    requires
        capacity > 0,
    ensures
        final(snapshot)@ == old(snapshot)@.system(capacity, at, Severity::Error, message@),
{
    push_system(snapshot, capacity, at, Severity::Error, message);
}

/// Marks in the log of a side where the operator gave a command.
pub fn push_command_divider(
    snapshot: &mut AppSnapshot,
    capacity: usize,
    at: u64,
    side: Side,
    label: &str,
)
    requires
        capacity > 0,
    ensures
        final(snapshot)@ == old(snapshot)@.divided(capacity, at, side, label@),
{
    let text = cat("━━━━━━━━━━ 手工下发：".to_owned(), label);
    let entry = LogEntry::at(
        at,
        side,
        Direction::Internal,
        Severity::Normal,
        LogCategory::CommandDivider,
        cat(text, " ━━━━━━━━━━"),
    );
    push_entry(snapshot, capacity, entry);
}

// ---------------------------------------------------------------------------
// Values.
/// The rows of a new table, with what the same rows of the old one held.
pub fn preserve_values(fresh: &Vec<PointView>, old: &Vec<PointView>) -> (result: Vec<PointView>)
    ensures
        rows(result@) == kept(rows(fresh@), Agreement::Same, rows(old@)),
{
    keep(fresh, Agreement::Same, old)
}

/// The rows of a new table of present values, with what the rows for the same
/// values held.
pub fn preserve_current_values(fresh: &Vec<PointView>, old: &Vec<PointView>) -> (result: Vec<
    PointView,
>)
    ensures
        rows(result@) == kept(rows(fresh@), Agreement::Current, rows(old@)),
{
    keep(fresh, Agreement::Current, old)
}

/// The table of present values with new ones.
pub open spec fn current_merged(current: Seq<PointRow>, values: Seq<PointRow>) -> Seq<PointRow> {
    sorted_by(filled(current, Agreement::Current, values), rows_by_rank())
}

pub fn merge_current_values(current: &mut Vec<PointView>, values: &Vec<PointView>)
    ensures
        rows(final(current)@) == current_merged(rows(old(current)@), rows(values@)),
{
    let mut table: Vec<PointView> = Vec::new();
    let ghost before = current@;
    table.append(current);
    assert(table@ =~= before);
    *current = sort_by_rank(fill(table, Agreement::Current, values));
}

// ---------------------------------------------------------------------------
// Reports of the two sides.
impl SnapshotState {
    /// What the operator sees after a report.
    pub open spec fn reduced(self, event: EventView, capacity: usize) -> SnapshotState {
        match event {
            EventView::Log(entry) => self.log(capacity, entry),
            EventView::Connection { side, view } => match side {
                Side::Collect => SnapshotState { collect_connection: view, ..self },
                Side::Dispatch => SnapshotState { dispatch_connection: view, ..self },
                Side::System => self,
            },
            EventView::CollectValues(values) => SnapshotState { collect_values: values, ..self },
            EventView::DispatchSnapshot { kind, values } => match kind {
                SnapshotKind::General => SnapshotState { dispatch_general: values, ..self },
                SnapshotKind::Energy => SnapshotState { dispatch_energy: values, ..self },
            },
            EventView::DispatchValues { kind, values } => match kind {
                SnapshotKind::General => SnapshotState {
                    dispatch_current_general: current_merged(
                        self.dispatch_current_general,
                        values,
                    ),
                    ..self
                },
                SnapshotKind::Energy => SnapshotState {
                    dispatch_current_energy: current_merged(self.dispatch_current_energy, values),
                    ..self
                },
            },
            EventView::RoundPending { kind, pending } => match kind {
                SnapshotKind::General => SnapshotState { general_pending: pending, ..self },
                SnapshotKind::Energy => SnapshotState { energy_pending: pending, ..self },
            },
            EventView::ApplicationPending(pending) => SnapshotState {
                application_pending: pending,
                ..self
            },
            EventView::FaultPolicyChanged(policy) => SnapshotState {
                fault_policy: policy,
                ..self
            },
            EventView::DispatchExpectedReloaded { general, energy, points } => SnapshotState {
                dispatch_current_general: kept(
                    general,
                    Agreement::Current,
                    self.dispatch_current_general,
                ),
                dispatch_current_energy: kept(
                    energy,
                    Agreement::Current,
                    self.dispatch_current_energy,
                ),
                dispatch_general: kept(general, Agreement::Same, self.dispatch_general),
                dispatch_energy: kept(energy, Agreement::Same, self.dispatch_energy),
                dispatch_points: points,
                ..self
            },
        }
    }
}

/// Takes a report of one of the sides into what the operator sees.
pub fn reduce(snapshot: &mut AppSnapshot, event: RuntimeEvent, capacity: usize)
    requires
        capacity > 0,
    ensures
        final(snapshot)@ == old(snapshot)@.reduced(event@, capacity),
{
    match event {
        RuntimeEvent::Log(entry) => push_entry(snapshot, capacity, entry),
        RuntimeEvent::Connection { side, view } => match side {
            Side::Collect => {
                snapshot.collect_connection = view;
            },
            Side::Dispatch => {
                snapshot.dispatch_connection = view;
            },
            Side::System => {},
        },
        RuntimeEvent::CollectValues(values) => {
            snapshot.collect_values = values;
        },
        RuntimeEvent::DispatchSnapshot { kind, values } => match kind {
            SnapshotKind::General => {
                snapshot.dispatch_general = values;
            },
            SnapshotKind::Energy => {
                snapshot.dispatch_energy = values;
            },
        },
        RuntimeEvent::DispatchValues { kind, values } => match kind {
            SnapshotKind::General => merge_current_values(
                &mut snapshot.dispatch_current_general,
                &values,
            ),
            SnapshotKind::Energy => merge_current_values(
                &mut snapshot.dispatch_current_energy,
                &values,
            ),
        },
        RuntimeEvent::RoundPending { kind, pending } => match kind {
            SnapshotKind::General => {
                snapshot.general_pending = pending;
            },
            SnapshotKind::Energy => {
                snapshot.energy_pending = pending;
            },
        },
        RuntimeEvent::ApplicationPending(pending) => {
            snapshot.application_pending = pending;
        },
        RuntimeEvent::FaultPolicyChanged(policy) => {
            snapshot.fault_policy = policy;
        },
        RuntimeEvent::DispatchExpectedReloaded { general, energy, points } => {
            snapshot.dispatch_current_general = preserve_current_values(
                &general,
                &snapshot.dispatch_current_general,
            );
            snapshot.dispatch_current_energy = preserve_current_values(
                &energy,
                &snapshot.dispatch_current_energy,
            );
            snapshot.dispatch_general = preserve_values(&general, &snapshot.dispatch_general);
            snapshot.dispatch_energy = preserve_values(&energy, &snapshot.dispatch_energy);
            snapshot.dispatch_points = points;
        },
    }
}

pub open spec fn unconnected(phase: ConnectionPhase, endpoint: Seq<char>) -> ConnectionState {
    ConnectionState {
        phase,
        endpoint,
        peer: None,
        detail: Seq::empty(),
        last_rx_ms: None,
        last_tx_ms: None,
    }
}

/// What the operator sees at first.
pub open spec fn first_snapshot(config: ToolConfig) -> SnapshotState {
    SnapshotState {
        collect_connection: unconnected(
            ConnectionPhase::Listening,
            endpoint_text(config.collect.bind_host@, config.collect.bind_port),
        ),
        dispatch_connection: unconnected(
            ConnectionPhase::Disconnected,
            endpoint_text(config.dispatch.target_host@, config.dispatch.target_port),
        ),
        collect_logs: Seq::empty(),
        dispatch_logs: Seq::empty(),
        system_logs: Seq::empty(),
        collect_values: Seq::empty(),
        dispatch_general: Seq::empty(),
        dispatch_energy: Seq::empty(),
        dispatch_current_general: Seq::empty(),
        dispatch_current_energy: Seq::empty(),
        dispatch_points: dispatch_views(config.dispatch_points@),
        general_pending: false,
        energy_pending: false,
        application_pending: 0,
        fault_policy: None,
    }
}

pub fn initial_snapshot(config: &ToolConfig) -> (result: AppSnapshot)
    ensures
        result@ == first_snapshot(*config),
{
    let result = AppSnapshot {
        collect_connection: ConnectionView::new(
            ConnectionPhase::Listening,
            endpoint(config.collect.bind_host.as_str(), config.collect.bind_port),
        ),
        dispatch_connection: ConnectionView::new(
            ConnectionPhase::Disconnected,
            endpoint(config.dispatch.target_host.as_str(), config.dispatch.target_port),
        ),
        collect_logs: VecDeque::new(),
        dispatch_logs: VecDeque::new(),
        system_logs: VecDeque::new(),
        collect_values: Vec::new(),
        dispatch_general: Vec::new(),
        dispatch_energy: Vec::new(),
        dispatch_current_general: Vec::new(),
        dispatch_current_energy: Vec::new(),
        dispatch_points: copy_dispatch_points(&config.dispatch_points),
        general_pending: false,
        energy_pending: false,
        application_pending: 0,
        fault_policy: None,
    };
    assert(result@ =~= first_snapshot(*config)) by {
        assert(log_views(Seq::empty()) =~= Seq::<LogView>::empty());
        assert(rows(Seq::empty()) =~= Seq::<PointRow>::empty());
    }
    result
}

// ---------------------------------------------------------------------------
// Coordination.
/// The steps of a reload of the point tables.
#[derive(Debug, Clone, Copy, PartialEq, Eq, Structural)]
pub enum ReloadStep {
    Prepare,
    Commit,
}

impl ReloadStep {
    pub open spec fn label_text(self) -> Seq<char> {
        match self {
            ReloadStep::Prepare => "准备"@,
            ReloadStep::Commit => "提交"@,
        }
    }

    pub fn label(self) -> (result: &'static str)
        ensures
            result@ == self.label_text(),
    {
        match self {
            ReloadStep::Prepare => "准备",
            ReloadStep::Commit => "提交",
        }
    }
}

/// A step of a reload, with the replies that have come.
#[derive(Debug)]
pub struct Reload {
    pub step: ReloadStep,
    pub generation: u64,
    pub collect: Option<Result<(), String>>,
    pub dispatch: Option<Result<(), String>>,
}

/// The replies are refusals or not; `Some(None)` is a reply without one.
#[verifier::ext_equal]
pub struct ReloadState {
    pub step: ReloadStep,
    pub generation: u64,
    pub collect: Option<Option<Seq<char>>>,
    pub dispatch: Option<Option<Seq<char>>>,
}

impl View for Reload {
    type V = ReloadState;

    open spec fn view(&self) -> ReloadState {
        ReloadState {
            step: self.step,
            generation: self.generation,
            collect: reply_view(self.collect),
            dispatch: reply_view(self.dispatch),
        }
    }
}

pub open spec fn reload_view(reload: Option<Reload>) -> Option<ReloadState> {
    match reload {
        Some(reload) => Some(reload@),
        None => None,
    }
}

/// What a command that was offered to a side was.
#[derive(Debug)]
pub enum Offer {
    Upload(UploadKind),
    Value { ioa: u32, type_id: String },
    Policy,
    Execute(DispatchAction),
}

/// The point tables that a reload brings.
#[derive(Debug)]
pub struct ReloadPoints {
    pub collect: Vec<CollectPointConfig>,
    pub dispatch: Vec<DispatchPointConfig>,
}

/// What is to be done next.
#[derive(Debug)]
pub enum Action {
    Wait,
    /// Offer a command to the collecting side.
    OfferCollect { command: CollectCommand, offer: Offer },
    /// Offer a command to the dispatching side.
    OfferDispatch { command: DispatchCommand, offer: Offer },
    /// Read the configuration.
    Load,
    /// Have both sides prepare their point tables, or neither.
    Prepare { generation: u64, points: ReloadPoints },
    /// Have both sides commit their point tables, or neither.
    Commit { generation: u64 },
    /// Have both sides drop their point tables.
    Abort { generation: u64 },
    /// End both sides; before that, have them drop their point tables.
    Stop { abort: Option<u64> },
}

/// Coordinates the two sides.
#[derive(Debug)]
pub struct Coordinator {
    pub snapshot: AppSnapshot,
    /// How many entries a log holds.
    pub capacity: usize,
    /// How long a step of a reload may take.
    pub timeout_ms: u64,
    pub generation: u64,
    pub events_open: bool,
    pub reload: Option<Reload>,
}

#[verifier::ext_equal]
pub struct CoordinatorState {
    pub snapshot: SnapshotState,
    pub capacity: usize,
    pub timeout_ms: u64,
    pub generation: u64,
    pub events_open: bool,
    pub reload: Option<ReloadState>,
}

impl View for Coordinator {
    type V = CoordinatorState;

    open spec fn view(&self) -> CoordinatorState {
        CoordinatorState {
            snapshot: self.snapshot@,
            capacity: self.capacity,
            timeout_ms: self.timeout_ms,
            generation: self.generation,
            events_open: self.events_open,
            reload: reload_view(self.reload),
        }
    }
}

pub open spec fn command_text(command: RuntimeCommand) -> Seq<char> {
    match command {
        RuntimeCommand::CollectUpload(_) => "采集主动上送命令"@,
        RuntimeCommand::SetCollectValue { .. } => "采集点值修改命令"@,
        RuntimeCommand::Dispatch(_) => "调度协议命令"@,
        RuntimeCommand::ClearLogs(_) => "日志清屏命令"@,
        RuntimeCommand::SetFaultPolicy(_) => "一次性响应策略命令"@,
        RuntimeCommand::ReloadConfig => "重复配置重载命令"@,
        RuntimeCommand::Quit => "退出命令"@,
    }
}

pub fn runtime_command_label(command: &RuntimeCommand) -> (result: &'static str)
    ensures
        result@ == command_text(*command),
{
    match command {
        RuntimeCommand::CollectUpload(_) => "采集主动上送命令",
        RuntimeCommand::SetCollectValue { .. } => "采集点值修改命令",
        RuntimeCommand::Dispatch(_) => "调度协议命令",
        RuntimeCommand::ClearLogs(_) => "日志清屏命令",
        RuntimeCommand::SetFaultPolicy(_) => "一次性响应策略命令",
        RuntimeCommand::ReloadConfig => "重复配置重载命令",
        RuntimeCommand::Quit => "退出命令",
    }
}

/// The generation after another one; none is zero.
pub open spec fn next_generation(generation: u64) -> u64 {
    if generation == u64::MAX {
        1
    } else {
        (generation + 1) as u64
    }
}

/// The refusals among replies.
pub open spec fn refusals(
    collect: Option<Option<Seq<char>>>,
    dispatch: Option<Option<Seq<char>>>,
) -> Seq<Seq<char>> {
    match (collect, dispatch) {
        (Some(Some(first)), Some(Some(second))) => seq![first, second],
        (Some(Some(first)), _) => seq![first],
        (_, Some(Some(second))) => seq![second],
        _ => Seq::empty(),
    }
}

impl CoordinatorState {
    pub open spec fn system(self, at: u64, severity: Severity, message: Seq<char>) -> CoordinatorState {
        CoordinatorState {
            snapshot: self.snapshot.system(self.capacity, at, severity, message),
            ..self
        }
    }

    pub open spec fn cleared(self, side: Side) -> CoordinatorState {
        let snapshot = match side {
            Side::Collect => SnapshotState { collect_logs: Seq::empty(), ..self.snapshot },
            Side::Dispatch => SnapshotState { dispatch_logs: Seq::empty(), ..self.snapshot },
            Side::System => SnapshotState { system_logs: Seq::empty(), ..self.snapshot },
        };
        CoordinatorState { snapshot, ..self }
    }

    /// The operator ends the program.
    pub open spec fn quitting(self) -> Action {
        Action::Stop {
            abort: match self.reload {
                Some(reload) => if reload.step is Prepare {
                    Some(reload.generation)
                } else {
                    None
                },
                None => None,
            },
        }
    }

    /// A command of the operator leads to an action.
    pub open spec fn commanded(
        self,
        command: RuntimeCommand,
        at: u64,
        after: CoordinatorState,
        action: Action,
    ) -> bool {
        match self.reload {
            Some(reload) => if command is Quit {
                after == self && action == self.quitting()
            } else {
                after == self.system(
                    at,
                    Severity::Warning,
                    "点表重载"@ + reload.step.label_text() + "中，"@ + command_text(command)
                        + "已本地拒绝，请稍后重试"@,
                ) && action is Wait
            },
            None => match command {
                RuntimeCommand::CollectUpload(kind) => {
                    after == self && action == Action::OfferCollect {
                        command: CollectCommand::Upload(kind),
                        offer: Offer::Upload(kind),
                    }
                },
                RuntimeCommand::SetCollectValue { ioa, type_id, value } => {
                    after == self && (action matches Action::OfferCollect { command, offer }
                        && command == CollectCommand::SetPointValue { ioa, type_id, value } && (
                    offer matches Offer::Value { ioa: named, type_id: shown } && named == ioa
                        && shown@ == type_id@))
                },
                RuntimeCommand::Dispatch(request) => {
                    after == self && action == Action::OfferDispatch {
                        command: DispatchCommand::Execute(request),
                        offer: Offer::Execute(request.action),
                    }
                },
                RuntimeCommand::ClearLogs(side) => {
                    after == self.cleared(side) && action is Wait
                },
                RuntimeCommand::SetFaultPolicy(policy) => {
                    after == self && action == Action::OfferCollect {
                        command: CollectCommand::SetFaultPolicy(policy),
                        offer: Offer::Policy,
                    }
                },
                RuntimeCommand::ReloadConfig => {
                    after == (CoordinatorState {
                        generation: next_generation(self.generation),
                        ..self
                    }) && action is Load
                },
                RuntimeCommand::Quit => after == self && action == self.quitting(),
            },
        }
    }

    /// A command was offered to a side, which took it or refused it.
    pub open spec fn offered(
        self,
        offer: Offer,
        refusal: Option<Seq<char>>,
        at: u64,
    ) -> CoordinatorState {
        match refusal {
            None => {
                let snapshot = match offer {
                    Offer::Upload(kind) => self.snapshot.divided(
                        self.capacity,
                        at,
                        Side::Collect,
                        kind.label_text(),
                    ),
                    Offer::Execute(action) => self.snapshot.divided(
                        self.capacity,
                        at,
                        Side::Dispatch,
                        action.label_text(),
                    ),
                    _ => self.snapshot,
                };
                CoordinatorState { snapshot, ..self }
            },
            Some(text) => self.system(
                at,
                Severity::Error,
                match offer {
                    Offer::Upload(kind) => "采集命令队列拒绝 "@ + kind.label_text() + ": "@ + text,
                    Offer::Value { ioa, type_id } => "采集点值修改队列拒绝 "@ + type_id@ + "/IOA="@
                        + decimal(ioa as nat) + ": "@ + text,
                    Offer::Policy => "响应策略队列拒绝请求: "@ + text,
                    Offer::Execute(action) => "调度命令队列拒绝 "@ + action.label_text() + ": "@
                        + text,
                },
            ),
        }
    }

    /// The queues took a step of a reload, or could not take it for both sides.
    pub open spec fn queued(
        self,
        step: ReloadStep,
        generation: u64,
        refusal: Option<(Seq<char>, Seq<char>)>,
        at: u64,
    ) -> (CoordinatorState, Action) {
        match refusal {
            None => (
                CoordinatorState {
                    reload: Some(ReloadState { step, generation, collect: None, dispatch: None }),
                    ..self
                },
                Action::Wait,
            ),
            Some((collect, dispatch)) => if step is Prepare {
                (
                    self.system(
                        at,
                        Severity::Error,
                        "配置已校验，但无法同时预留两侧重载队列: collect="@ + collect
                            + ", dispatch="@ + dispatch,
                    ),
                    Action::Wait,
                )
            } else {
                (
                    self.system(
                        at,
                        Severity::Error,
                        "重载已准备，但无法同时预留提交队列，已取消: collect="@ + collect
                            + ", dispatch="@ + dispatch,
                    ),
                    Action::Abort { generation },
                )
            },
        }
    }

    /// A step of a reload failed.
    pub open spec fn failed(self, reload: ReloadState, error: Seq<char>, at: u64) -> (
        CoordinatorState,
        Action,
    ) {
        let over = CoordinatorState { reload: None, ..self };
        if reload.step is Prepare {
            (
                over.system(
                    at,
                    Severity::Error,
                    "两侧点表重载已取消，运行中配置不变: "@ + error,
                ),
                Action::Abort { generation: reload.generation },
            )
        } else {
            (
                over.system(
                    at,
                    Severity::Error,
                    "点表提交未获两侧完整确认，运行状态可能分裂；已停止两侧协议任务，请检查日志并重启测试台: "@
                        + error,
                ),
                Action::Stop { abort: None },
            )
        }
    }

    /// A reply came; the step is over when both have come.
    pub open spec fn settled(self, reload: ReloadState, at: u64) -> (CoordinatorState, Action) {
        let refused = refusals(reload.collect, reload.dispatch);
        if reload.collect is None || reload.dispatch is None {
            (CoordinatorState { reload: Some(reload), ..self }, Action::Wait)
        } else if refused.len() > 0 {
            self.failed(reload, joined(refused, "；"@), at)
        } else if reload.step is Prepare {
            (
                CoordinatorState { reload: None, ..self },
                Action::Commit { generation: reload.generation },
            )
        } else {
            (
                CoordinatorState { reload: None, ..self }.system(
                    at,
                    Severity::Success,
                    "两侧点表已通过两阶段原子重载并确认提交；新点表路径已生效，协议地址和计时参数变更需重启"@,
                ),
                Action::Wait,
            )
        }
    }

    pub open spec fn closed_text(side: Seq<char>, step: ReloadStep) -> Seq<char> {
        side + "侧重载"@ + step.label_text() + "回复通道关闭"@
    }

    /// The collecting side replied, or can no more.
    pub open spec fn collect_replied(self, reply: Option<Option<Seq<char>>>, at: u64) -> (
        CoordinatorState,
        Action,
    ) {
        match self.reload {
            Some(reload) => if reload.collect is None {
                let outcome = match reply {
                    Some(outcome) => outcome,
                    None => Some(CoordinatorState::closed_text("采集"@, reload.step)),
                };
                self.settled(ReloadState { collect: Some(outcome), ..reload }, at)
            } else {
                (self, Action::Wait)
            },
            None => (self, Action::Wait),
        }
    }

    /// The dispatching side replied, or can no more.
    pub open spec fn dispatch_replied(self, reply: Option<Option<Seq<char>>>, at: u64) -> (
        CoordinatorState,
        Action,
    ) {
        match self.reload {
            Some(reload) => if reload.dispatch is None {
                let outcome = match reply {
                    Some(outcome) => outcome,
                    None => Some(CoordinatorState::closed_text("调度"@, reload.step)),
                };
                self.settled(ReloadState { dispatch: Some(outcome), ..reload }, at)
            } else {
                (self, Action::Wait)
            },
            None => (self, Action::Wait),
        }
    }

    /// A step of a reload took too long.
    pub open spec fn timed_out(self, at: u64) -> (CoordinatorState, Action) {
        match self.reload {
            Some(reload) => self.failed(
                reload,
                "重载"@ + reload.step.label_text() + "等待超时（"@ + decimal(
                    self.timeout_ms as nat,
                ) + " ms）"@,
                at,
            ),
            None => (self, Action::Wait),
        }
    }
}

impl Coordinator {
    pub fn new(config: &ToolConfig) -> (result: Coordinator)
        requires
            config.ui.log_capacity > 0,
        ensures
            result@ == (CoordinatorState {
                snapshot: first_snapshot(*config),
                capacity: config.ui.log_capacity,
                timeout_ms: saturated_sum(config.protocol.t0_ms, config.protocol.t0_ms),
                generation: 0,
                events_open: true,
                reload: None,
            }),
    {
        let t0: u64 = config.protocol.t0_ms;
        Coordinator {
            snapshot: initial_snapshot(config),
            capacity: config.ui.log_capacity,
            timeout_ms: t0.saturating_add(t0),
            generation: 0,
            events_open: true,
            reload: None,
        }
    }

    fn system(&mut self, at: u64, severity: Severity, message: String)
        requires
            old(self).capacity > 0,
        ensures
            final(self)@ == old(self)@.system(at, severity, message@),
    {
        push_system(&mut self.snapshot, self.capacity, at, severity, message);
    }

    /// Takes in a report of one of the sides.
    pub fn event(&mut self, event: RuntimeEvent)
        requires
            old(self).capacity > 0,
        ensures
            final(self)@ == (CoordinatorState {
                snapshot: old(self)@.snapshot.reduced(event@, old(self).capacity),
                ..old(self)@
            }),
    {
        reduce(&mut self.snapshot, event, self.capacity);
    }

    /// The two sides report no more.
    pub fn events_closed(&mut self, at: u64)
        requires
            old(self).capacity > 0,
        ensures
            final(self)@ == (CoordinatorState { events_open: false, ..old(self)@ }).system(
                at,
                Severity::Error,
                "两侧协议事件通道已关闭"@,
            ),
    {
        self.events_open = false;
        push_system_error(&mut self.snapshot, self.capacity, at, "两侧协议事件通道已关闭".to_owned());
    }

    /// The operator gives no more commands.
    pub fn quit(&self) -> (result: Action)
        ensures
            result == self@.quitting(),
    {
        let abort: Option<u64> = match &self.reload {
            Some(reload) => match reload.step {
                ReloadStep::Prepare => Some(reload.generation),
                ReloadStep::Commit => None,
            },
            None => None,
        };
        Action::Stop { abort }
    }

    /// Takes a command of the operator.
    pub fn command(&mut self, command: RuntimeCommand, at: u64) -> (result: Action)
        requires
            old(self).capacity > 0,
        ensures
            old(self)@.commanded(command, at, final(self)@, result),
    {
        if let Some(reload) = &self.reload {
            if let RuntimeCommand::Quit = &command {
                return self.quit();
            }
            let text = cat(cat("点表重载".to_owned(), reload.step.label()), "中，");
            let text = cat(text, runtime_command_label(&command));
            self.system(at, Severity::Warning, cat(text, "已本地拒绝，请稍后重试"));
            return Action::Wait;
        }
        match command {
            RuntimeCommand::CollectUpload(kind) => Action::OfferCollect {
                command: CollectCommand::Upload(kind),
                offer: Offer::Upload(kind),
            },
            RuntimeCommand::SetCollectValue { ioa, type_id, value } => {
                let offer = Offer::Value { ioa, type_id: type_id.clone() };
                Action::OfferCollect {
                    command: CollectCommand::SetPointValue { ioa, type_id, value },
                    offer,
                }
            },
            RuntimeCommand::Dispatch(request) => Action::OfferDispatch {
                command: DispatchCommand::Execute(request),
                offer: Offer::Execute(request.action),
            },
            RuntimeCommand::ClearLogs(side) => {
                match side {
                    Side::Collect => self.snapshot.collect_logs.clear(),
                    Side::Dispatch => self.snapshot.dispatch_logs.clear(),
                    Side::System => self.snapshot.system_logs.clear(),
                }
                assert(log_views(Seq::empty()) =~= Seq::<LogView>::empty());
                Action::Wait
            },
            RuntimeCommand::SetFaultPolicy(policy) => Action::OfferCollect {
                command: CollectCommand::SetFaultPolicy(policy),
                offer: Offer::Policy,
            },
            RuntimeCommand::ReloadConfig => {
                self.generation = if self.generation == u64::MAX {
                    1
                } else {
                    self.generation + 1
                };
                Action::Load
            },
            RuntimeCommand::Quit => self.quit(),
        }
    }

    /// A command was offered to a side, which took it or refused it.
    pub fn offered(&mut self, offer: &Offer, refusal: Option<String>, at: u64)
        requires
            old(self).capacity > 0,
        ensures
            final(self)@ == old(self)@.offered(*offer, text_view(refusal), at),
    {
        let text = match refusal {
            None => {
                match offer {
                    Offer::Upload(kind) => push_command_divider(
                        &mut self.snapshot,
                        self.capacity,
                        at,
                        Side::Collect,
                        kind.label(),
                    ),
                    Offer::Execute(action) => push_command_divider(
                        &mut self.snapshot,
                        self.capacity,
                        at,
                        Side::Dispatch,
                        action.label(),
                    ),
                    _ => {},
                }
                return;
            },
            Some(text) => text,
        };
        let head = match offer {
            Offer::Upload(kind) => cat(
                cat("采集命令队列拒绝 ".to_owned(), kind.label()),
                ": ",
            ),
            Offer::Value { ioa, type_id } => {
                let head = cat("采集点值修改队列拒绝 ".to_owned(), type_id.as_str());
                cat(cat_number(cat(head, "/IOA="), *ioa as u64), ": ")
            },
            Offer::Policy => "响应策略队列拒绝请求: ".to_owned(),
            Offer::Execute(action) => cat(
                cat("调度命令队列拒绝 ".to_owned(), action.label()),
                ": ",
            ),
        };
        push_system_error(&mut self.snapshot, self.capacity, at, cat(head, text.as_str()));
    }

    /// The configuration was read, or could not be.
    pub fn loaded(&mut self, result: Result<ReloadPoints, String>, at: u64) -> (action: Action)
        requires
            old(self).capacity > 0,
        ensures
            match result {
                Ok(points) => final(self)@ == old(self)@ && action == (Action::Prepare {
                    generation: old(self).generation,
                    points,
                }),
                Err(text) => final(self)@ == old(self)@.system(
                    at,
                    Severity::Error,
                    "配置重载失败，保留运行中配置: "@ + text@,
                ) && action is Wait,
            },
    {
        match result {
            Ok(points) => Action::Prepare { generation: self.generation, points },
            Err(text) => {
                let text = cat("配置重载失败，保留运行中配置: ".to_owned(), text.as_str());
                push_system_error(&mut self.snapshot, self.capacity, at, text);
                Action::Wait
            },
        }
    }

    /// The queues took a step of a reload, or could not take it for both sides.
    pub fn reload_queued(
        &mut self,
        step: ReloadStep,
        generation: u64,
        refusal: Option<(String, String)>,
        at: u64,
    ) -> (action: Action)
        requires
            old(self).capacity > 0,
        ensures
            (final(self)@, action) == old(self)@.queued(
                step,
                generation,
                pair_view(refusal),
                at,
            ),
    {
        match refusal {
            None => {
                self.reload = Some(Reload { step, generation, collect: None, dispatch: None });
                Action::Wait
            },
            Some((collect, dispatch)) => match step {
                ReloadStep::Prepare => {
                    let text = cat(
                        "配置已校验，但无法同时预留两侧重载队列: collect=".to_owned(),
                        collect.as_str(),
                    );
                    let text = cat(cat(text, ", dispatch="), dispatch.as_str());
                    push_system_error(&mut self.snapshot, self.capacity, at, text);
                    Action::Wait
                },
                ReloadStep::Commit => {
                    let text = cat(
                        "重载已准备，但无法同时预留提交队列，已取消: collect=".to_owned(),
                        collect.as_str(),
                    );
                    let text = cat(cat(text, ", dispatch="), dispatch.as_str());
                    push_system_error(&mut self.snapshot, self.capacity, at, text);
                    Action::Abort { generation }
                },
            },
        }
    }

    fn fail(&mut self, reload: Reload, error: &str, at: u64) -> (action: Action)
        requires
            old(self).capacity > 0,
        ensures
            (final(self)@, action) == old(self)@.failed(reload@, error@, at),
    {
        self.reload = None;
        match reload.step {
            ReloadStep::Prepare => {
                let text = cat("两侧点表重载已取消，运行中配置不变: ".to_owned(), error);
                push_system_error(&mut self.snapshot, self.capacity, at, text);
                Action::Abort { generation: reload.generation }
            },
            ReloadStep::Commit => {
                let text = cat(
                    "点表提交未获两侧完整确认，运行状态可能分裂；已停止两侧协议任务，请检查日志并重启测试台: ".to_owned(),
                    error,
                );
                push_system_error(&mut self.snapshot, self.capacity, at, text);
                Action::Stop { abort: None }
            },
        }
    }

    fn settle(&mut self, reload: Reload, at: u64) -> (action: Action)
        requires
            old(self).capacity > 0,
        ensures
            (final(self)@, action) == old(self)@.settled(reload@, at),
    {
        if reload.collect.is_none() || reload.dispatch.is_none() {
            self.reload = Some(reload);
            return Action::Wait;
        }
        let mut refused: Vec<String> = Vec::new();
        if let Some(Err(text)) = &reload.collect {
            refused.push(text.clone());
        }
        if let Some(Err(text)) = &reload.dispatch {
            refused.push(text.clone());
        }
        assert(texts(refused@) =~= refusals(reload@.collect, reload@.dispatch));
        assert(texts(refused@).len() == refused@.len());
        if refused.len() > 0 {
            let error = join(&refused, "；");
            return self.fail(reload, error.as_str(), at);
        }
        self.reload = None;
        match reload.step {
            ReloadStep::Prepare => Action::Commit { generation: reload.generation },
            ReloadStep::Commit => {
                self.system(
                    at,
                    Severity::Success,
                    "两侧点表已通过两阶段原子重载并确认提交；新点表路径已生效，协议地址和计时参数变更需重启".to_owned(),
                );
                Action::Wait
            },
        }
    }

    /// The collecting side replied, or can no more.
    pub fn collect_replied(&mut self, reply: Option<Result<(), String>>, at: u64) -> (action: Action)
        requires
            old(self).capacity > 0,
        ensures
            (final(self)@, action) == old(self)@.collect_replied(reply_view(reply), at),
    {
        let mut reload = match self.reload.take() {
            Some(reload) => reload,
            None => {
                return Action::Wait;
            },
        };
        if reload.collect.is_some() {
            self.reload = Some(reload);
            return Action::Wait;
        }
        reload.collect = match reply {
            Some(outcome) => Some(outcome),
            None => {
                let text = cat(cat("采集".to_owned(), "侧重载"), reload.step.label());
                Some(Err(cat(text, "回复通道关闭")))
            },
        };
        self.settle(reload, at)
    }

    /// The dispatching side replied, or can no more.
    pub fn dispatch_replied(&mut self, reply: Option<Result<(), String>>, at: u64) -> (action:
        Action)
        requires
            old(self).capacity > 0,
        ensures
            (final(self)@, action) == old(self)@.dispatch_replied(reply_view(reply), at),
    {
        let mut reload = match self.reload.take() {
            Some(reload) => reload,
            None => {
                return Action::Wait;
            },
        };
        if reload.dispatch.is_some() {
            self.reload = Some(reload);
            return Action::Wait;
        }
        reload.dispatch = match reply {
            Some(outcome) => Some(outcome),
            None => {
                let text = cat(cat("调度".to_owned(), "侧重载"), reload.step.label());
                Some(Err(cat(text, "回复通道关闭")))
            },
        };
        self.settle(reload, at)
    }

    /// A step of a reload took too long.
    pub fn reload_timed_out(&mut self, at: u64) -> (action: Action)
        requires
            old(self).capacity > 0,
        ensures
            (final(self)@, action) == old(self)@.timed_out(at),
    {
        match self.reload.take() {
            Some(reload) => {
                let text = cat(cat("重载".to_owned(), reload.step.label()), "等待超时（");
                let text = cat(cat_number(text, self.timeout_ms), " ms）");
                self.fail(reload, text.as_str(), at)
            },
            None => Action::Wait,
        }
    }
}

pub open spec fn pair_view(pair: Option<(String, String)>) -> Option<(Seq<char>, Seq<char>)> {
    match pair {
        Some((first, second)) => Some((first@, second@)),
        None => None,
    }
}

// ---------------------------------------------------------------------------
// Laws.
/// A log never holds more than its capacity, and holds the latest entries in
/// their order.
pub proof fn law_logs_stay_within_capacity(logs: Seq<LogView>, capacity: usize, entry: LogView)
    requires
        capacity > 0,
    ensures
        ({
            let after = logged(logs, capacity, entry);
            let all = logs.push(entry);
            &&& after.len() <= capacity
            &&& after.len() > 0 && after.last() == entry
            &&& after == all.skip(all.len() - after.len())
            &&& logs.len() < capacity ==> after == all
        }),
{
    let after = logged(logs, capacity, entry);
    let all = logs.push(entry);
    assert(after =~= all.skip(all.len() - after.len()));
}

/// A value that comes by itself changes the present values of its kind alone;
/// the snapshots of the interrogations stay as they are.
pub proof fn law_values_do_not_touch_snapshots(
    state: SnapshotState,
    kind: SnapshotKind,
    values: Seq<PointRow>,
    capacity: usize,
)
    ensures
        ({
            let after = state.reduced(EventView::DispatchValues { kind, values }, capacity);
            &&& after.dispatch_general == state.dispatch_general
            &&& after.dispatch_energy == state.dispatch_energy
            &&& kind is General ==> after == (SnapshotState {
                dispatch_current_general: after.dispatch_current_general,
                ..state
            })
            &&& kind is Energy ==> after == (SnapshotState {
                dispatch_current_energy: after.dispatch_current_energy,
                ..state
            })
        }),
{
}

/// Merging present values keeps the rows distinct and in the order of their
/// ranks, removes no row, and settles: merging the same values once more changes
/// nothing.
pub proof fn law_merging_present_values_settles(current: Seq<PointRow>, values: Seq<PointRow>)
    requires
        distinct_rows(current, Agreement::Current),
    ensures
        ({
            let after = current_merged(current, values);
            &&& distinct_rows(after, Agreement::Current)
            &&& in_order(after, rows_by_rank())
            &&& forall|i: int| 0 <= i < current.len() ==> has_place(after, #[trigger] current[i])
            &&& current_merged(after, values) == after
        }),
{
    law_rank_is_an_order();
    law_merging_settles(current, Agreement::Current, values, rows_by_rank());
}

/// A time-tagged indication goes to the row of the plain one: the row keeps its
/// address, name and type, and no row is added.
pub proof fn law_tagged_value_updates_the_plain_row(row: PointRow, value: PointRow)
    requires
        row.ioa == value.ioa,
        crate::table::tagged(row.type_id, value.type_id),
    ensures
        current_merged(seq![row], seq![value]) == seq![crate::table::carried(row, value)],
{
    let table = seq![row];
    let values = seq![value];
    assert(values.drop_last() =~= Seq::<PointRow>::empty());
    assert(filled(table, Agreement::Current, values.drop_last()) == table);
    assert(table.drop_last() =~= Seq::<PointRow>::empty());
    assert(crate::table::row_position(
        table.drop_last(),
        Agreement::Current,
        value.ioa,
        value.type_id,
    ) is None);
    assert(crate::table::row_position(table, Agreement::Current, value.ioa, value.type_id) == Some(
        0int,
    ));
    let after = filled(table, Agreement::Current, values);
    assert(after =~= seq![crate::table::carried(row, value)]);
    assert(after.drop_last() =~= Seq::<PointRow>::empty());
    assert(sorted_by(after.drop_last(), rows_by_rank()) =~= Seq::<PointRow>::empty());
    assert(sorted_by(after, rows_by_rank()) =~= after);
}

/// The point tables are committed only after both sides have prepared theirs
/// without a refusal.
pub proof fn law_commit_needs_both_sides(state: CoordinatorState, reload: ReloadState, at: u64)
    ensures
        state.settled(reload, at).1 is Commit <==> reload.step is Prepare && reload.collect
            == Some(None::<Seq<char>>) && reload.dispatch == Some(None::<Seq<char>>),
        state.settled(reload, at).1 is Commit ==> state.settled(reload, at).1
            == (Action::Commit { generation: reload.generation }),
{
}

/// A preparation that fails is dropped on both sides, and the operator keeps
/// seeing what ran before, with one entry more in the system log.
pub proof fn law_failed_preparation_changes_nothing(
    state: CoordinatorState,
    reload: ReloadState,
    error: Seq<char>,
    at: u64,
)
    requires
        reload.step is Prepare,
    ensures
        state.failed(reload, error, at).1 == (Action::Abort { generation: reload.generation }),
        state.failed(reload, error, at).0.snapshot == (SnapshotState {
            system_logs: state.failed(reload, error, at).0.snapshot.system_logs,
            ..state.snapshot
        }),
        state.failed(reload, error, at).0.reload is None,
{
}

/// A commit that one side refuses stops both.
pub proof fn law_failed_commit_stops(state: CoordinatorState, reload: ReloadState, at: u64)
    requires
        reload.step is Commit,
        reload.collect is Some,
        reload.dispatch is Some,
        reload.collect->0 is Some || reload.dispatch->0 is Some,
    ensures
        state.settled(reload, at).1 == (Action::Stop { abort: None }),
{
    assert(refusals(reload.collect, reload.dispatch).len() > 0);
}

/// While a reload is under way no command but the end of the program is carried
/// out.
pub proof fn law_reload_refuses_commands(
    state: CoordinatorState,
    command: RuntimeCommand,
    at: u64,
    after: CoordinatorState,
    action: Action,
)
    requires
        state.commanded(command, at, after, action),
        state.reload is Some,
        command !is Quit,
    ensures
        action is Wait,
        after.reload == state.reload,
        after.generation == state.generation,
{
}

/// Every reload has a generation of its own, which is not zero.
pub proof fn law_generations_differ(generation: u64)
    ensures
        next_generation(generation) != generation,
        next_generation(generation) != 0,
{
}

// ---------------------------------------------------------------------------
// Laws of what the operator sees.
/// An entry goes to the log of its side and to no other, as its last one; the
/// latest entries stay, as many as the log may hold.
pub proof fn law_entries_go_to_the_log_of_their_side(
    state: SnapshotState,
    entry: LogView,
    capacity: usize,
)
    requires
        capacity > 0,
    ensures
        ({
            let after = state.reduced(EventView::Log(entry), capacity);
            let (before, own) = match entry.side {
                Side::Collect => (state.collect_logs, after.collect_logs),
                Side::Dispatch => (state.dispatch_logs, after.dispatch_logs),
                Side::System => (state.system_logs, after.system_logs),
            };
            &&& entry.side !is Collect ==> after.collect_logs == state.collect_logs
            &&& entry.side !is Dispatch ==> after.dispatch_logs == state.dispatch_logs
            &&& entry.side !is System ==> after.system_logs == state.system_logs
            &&& own.len() <= capacity
            &&& own.len() > 0 && own.last() == entry
            &&& own.drop_last().is_suffix_of(before)
            &&& before.len() < capacity ==> own.len() == before.len() + 1
            &&& before.len() == capacity ==> own.len() == capacity
            &&& after == (SnapshotState {
                collect_logs: after.collect_logs,
                dispatch_logs: after.dispatch_logs,
                system_logs: after.system_logs,
                ..state
            })
        }),
{
    let after = state.reduced(EventView::Log(entry), capacity);
    let (before, own) = match entry.side {
        Side::Collect => (state.collect_logs, after.collect_logs),
        Side::Dispatch => (state.dispatch_logs, after.dispatch_logs),
        Side::System => (state.system_logs, after.system_logs),
    };
    assert(own.drop_last() =~= before.subrange(
        before.len() - own.drop_last().len(),
        before.len() as int,
    ));
}

/// Each report changes the one thing that it is about, and makes it what the
/// report says.
pub proof fn law_reports_change_what_they_are_about(
    state: SnapshotState,
    event: EventView,
    capacity: usize,
)
    ensures
        ({
            let after = state.reduced(event, capacity);
            match event {
                EventView::Log(_) => true,
                EventView::Connection { side, view } => {
                    &&& after.collect_connection == (if side is Collect {
                        view
                    } else {
                        state.collect_connection
                    })
                    &&& after.dispatch_connection == (if side is Dispatch {
                        view
                    } else {
                        state.dispatch_connection
                    })
                    &&& after == (SnapshotState {
                        collect_connection: after.collect_connection,
                        dispatch_connection: after.dispatch_connection,
                        ..state
                    })
                },
                EventView::CollectValues(values) => after == (SnapshotState {
                    collect_values: values,
                    ..state
                }),
                EventView::DispatchSnapshot { kind, values } => {
                    &&& after.dispatch_general == (if kind is General {
                        values
                    } else {
                        state.dispatch_general
                    })
                    &&& after.dispatch_energy == (if kind is Energy {
                        values
                    } else {
                        state.dispatch_energy
                    })
                    &&& after == (SnapshotState {
                        dispatch_general: after.dispatch_general,
                        dispatch_energy: after.dispatch_energy,
                        ..state
                    })
                },
                EventView::RoundPending { kind, pending } => {
                    &&& after.general_pending == (if kind is General {
                        pending
                    } else {
                        state.general_pending
                    })
                    &&& after.energy_pending == (if kind is Energy {
                        pending
                    } else {
                        state.energy_pending
                    })
                    &&& after == (SnapshotState {
                        general_pending: after.general_pending,
                        energy_pending: after.energy_pending,
                        ..state
                    })
                },
                EventView::ApplicationPending(pending) => after == (SnapshotState {
                    application_pending: pending,
                    ..state
                }),
                EventView::FaultPolicyChanged(policy) => after == (SnapshotState {
                    fault_policy: policy,
                    ..state
                }),
                EventView::DispatchValues { kind, .. } => {
                    &&& kind is General ==> after.dispatch_current_energy
                        == state.dispatch_current_energy
                    &&& kind is Energy ==> after.dispatch_current_general
                        == state.dispatch_current_general
                },
                EventView::DispatchExpectedReloaded { points, .. } => {
                    &&& after.dispatch_points == points
                    &&& after.collect_values == state.collect_values
                    &&& after.collect_logs == state.collect_logs
                    &&& after.dispatch_logs == state.dispatch_logs
                    &&& after.dispatch_connection == state.dispatch_connection
                },
            }
        }),
{
}

/// A value that comes is among the present values of its kind, in a row of its
/// address and type or of its plain type, unless a later one that came with it
/// takes the row. The rows stand by address.
pub proof fn law_values_that_come_are_present(
    state: SnapshotState,
    kind: SnapshotKind,
    values: Seq<PointRow>,
    capacity: usize,
    j: int,
)
    requires
        0 <= j < values.len(),
        forall|k: int|
            j < k < values.len() ==> !((#[trigger] values[k]).ioa == values[j].ioa
                && crate::table::may_share(
                Agreement::Current,
                values[j].type_id,
                values[k].type_id,
            )),
    ensures
        ({
            let after = state.reduced(EventView::DispatchValues { kind, values }, capacity);
            let present = if kind is General {
                after.dispatch_current_general
            } else {
                after.dispatch_current_energy
            };
            &&& crate::table::shows(present, Agreement::Current, values[j])
            &&& forall|a: int, b: int|
                0 <= a < b < present.len() ==> (#[trigger] present[a]).ioa <= (
                #[trigger] present[b]).ioa
        }),
{
    let before = if kind is General {
        state.dispatch_current_general
    } else {
        state.dispatch_current_energy
    };
    let table = filled(before, Agreement::Current, values);
    let present = current_merged(before, values);
    let value = values[j];
    crate::table::law_every_value_is_shown(before, Agreement::Current, values, j);
    law_rank_is_an_order();
    crate::order::law_sorting(table, rows_by_rank());
    crate::order::lemma_sorting_keeps_items(table, rows_by_rank());
    let i = choose|i: int|
        0 <= i < table.len() && (#[trigger] table[i]).ioa == value.ioa && crate::table::may_share(
            Agreement::Current,
            table[i].type_id,
            value.type_id,
        ) && table[i].value == value.value && table[i].quality == value.quality
            && table[i].updated_ms == value.updated_ms;
    assert(table.contains(table[i]));
    assert(present.contains(table[i]));
    let k = choose|k: int| 0 <= k < present.len() && present[k] == table[i];
    assert(present[k].ioa == value.ioa);
    assert forall|a: int, b: int| 0 <= a < b < present.len() implies (#[trigger] present[a]).ioa
        <= (#[trigger] present[b]).ioa by {
        assert(rows_by_rank()(present[a], present[b]));
    }
}

/// A new table of expected points has a row for each of them in the present
/// values and in the snapshots, which keep what they held of them.
pub proof fn law_expected_tables_replace_the_rows(
    state: SnapshotState,
    general: Seq<PointRow>,
    energy: Seq<PointRow>,
    points: Seq<crate::config::DispatchPointView>,
    capacity: usize,
)
    ensures
        ({
            let after = state.reduced(
                EventView::DispatchExpectedReloaded { general, energy, points },
                capacity,
            );
            &&& after.dispatch_general == kept(general, Agreement::Same, state.dispatch_general)
            &&& after.dispatch_energy == kept(energy, Agreement::Same, state.dispatch_energy)
            &&& after.dispatch_current_general == kept(
                general,
                Agreement::Current,
                state.dispatch_current_general,
            )
            &&& after.dispatch_current_energy == kept(
                energy,
                Agreement::Current,
                state.dispatch_current_energy,
            )
        }),
{
}

/// At first there is nothing to see but where the two sides connect: the one
/// listens and the other is not connected.
pub proof fn law_nothing_is_seen_at_first(config: ToolConfig)
    ensures
        ({
            let first = first_snapshot(config);
            &&& first.collect_connection.phase is Listening
            &&& first.dispatch_connection.phase is Disconnected
            &&& first.collect_connection.endpoint == config.collect.bind_host@ + ":"@ + decimal(
                config.collect.bind_port as nat,
            )
            &&& first.dispatch_connection.endpoint == config.dispatch.target_host@ + ":"@ + decimal(
                config.dispatch.target_port as nat,
            )
            &&& first.collect_connection.peer is None && first.dispatch_connection.peer is None
            &&& first.collect_logs.len() == 0 && first.dispatch_logs.len() == 0
                && first.system_logs.len() == 0
            &&& first.collect_values.len() == 0 && first.dispatch_general.len() == 0
                && first.dispatch_energy.len() == 0 && first.dispatch_current_general.len() == 0
                && first.dispatch_current_energy.len() == 0
            &&& !first.general_pending && !first.energy_pending && first.application_pending == 0
            &&& first.fault_policy is None
            &&& first.dispatch_points == dispatch_views(config.dispatch_points@)
        }),
{
}

// ---------------------------------------------------------------------------
// Laws of coordination.
/// A command reaches the side that it is for as what it asks, where no reload is
/// under way; clearing a log empties that log alone, and a reload reads the
/// configuration under a new generation.
pub proof fn law_commands_reach_their_side(
    state: CoordinatorState,
    command: RuntimeCommand,
    at: u64,
    after: CoordinatorState,
    action: Action,
)
    requires
        state.commanded(command, at, after, action),
        state.reload is None,
    ensures
        match command {
            RuntimeCommand::CollectUpload(kind) => {
                &&& after == state
                &&& action matches Action::OfferCollect {
                    command: CollectCommand::Upload(asked),
                    offer: Offer::Upload(named),
                } && asked == kind && named == kind
            },
            RuntimeCommand::SetCollectValue { ioa, type_id, value } => {
                &&& after == state
                &&& action matches Action::OfferCollect {
                    command: CollectCommand::SetPointValue {
                        ioa: asked,
                        type_id: kind,
                        value: given,
                    },
                    ..
                } && asked == ioa && kind == type_id && given == value
            },
            RuntimeCommand::SetFaultPolicy(policy) => {
                &&& after == state
                &&& action matches Action::OfferCollect {
                    command: CollectCommand::SetFaultPolicy(asked),
                    ..
                } && asked == policy
            },
            RuntimeCommand::Dispatch(request) => {
                &&& after == state
                &&& action matches Action::OfferDispatch {
                    command: DispatchCommand::Execute(asked),
                    offer: Offer::Execute(named),
                } && asked == request && named == request.action
            },
            RuntimeCommand::ClearLogs(side) => {
                &&& action is Wait
                &&& after == (CoordinatorState { snapshot: after.snapshot, ..state })
                &&& after.snapshot == (SnapshotState {
                    collect_logs: if side is Collect {
                        Seq::empty()
                    } else {
                        state.snapshot.collect_logs
                    },
                    dispatch_logs: if side is Dispatch {
                        Seq::empty()
                    } else {
                        state.snapshot.dispatch_logs
                    },
                    system_logs: if side is System {
                        Seq::empty()
                    } else {
                        state.snapshot.system_logs
                    },
                    ..state.snapshot
                })
            },
            RuntimeCommand::ReloadConfig => {
                &&& action is Load
                &&& after.snapshot == state.snapshot && after.reload is None
                &&& after.generation != 0
                &&& state.generation < u64::MAX ==> after.generation == state.generation + 1
            },
            RuntimeCommand::Quit => after == state && action == (Action::Stop { abort: None }),
        },
{
}

/// The end of the program drops a table that is prepared, and only that.
pub proof fn law_quitting_drops_what_is_prepared(state: CoordinatorState)
    ensures
        match state.quitting() {
            Action::Stop { abort } => match state.reload {
                Some(reload) => if reload.step is Prepare {
                    abort == Some(reload.generation)
                } else {
                    abort is None
                },
                None => abort is None,
            },
            _ => false,
        },
{
}

/// A command that is taken is marked in the log of its side, if it is a report
/// or a request; one that is refused is an error of the system, and nothing else
/// changes.
pub proof fn law_offers_are_marked(
    state: CoordinatorState,
    offer: Offer,
    refusal: Option<Seq<char>>,
    at: u64,
)
    requires
        state.capacity > 0,
    ensures
        ({
            let after = state.offered(offer, refusal, at);
            let snapshot = after.snapshot;
            &&& after == (CoordinatorState { snapshot, ..state })
            &&& snapshot == (SnapshotState {
                collect_logs: snapshot.collect_logs,
                dispatch_logs: snapshot.dispatch_logs,
                system_logs: snapshot.system_logs,
                ..state.snapshot
            })
            &&& refusal is Some ==> {
                &&& snapshot.collect_logs == state.snapshot.collect_logs
                &&& snapshot.dispatch_logs == state.snapshot.dispatch_logs
                &&& snapshot.system_logs.len() > 0
                &&& snapshot.system_logs.last().severity is Error
                &&& snapshot.system_logs.last().timestamp_ms == at
            }
            &&& refusal is None ==> {
                &&& snapshot.system_logs == state.snapshot.system_logs
                &&& offer matches Offer::Upload(kind) ==> {
                    &&& snapshot.dispatch_logs == state.snapshot.dispatch_logs
                    &&& snapshot.collect_logs.len() > 0
                    &&& snapshot.collect_logs.last().category is CommandDivider
                    &&& snapshot.collect_logs.last().summary == "━━━━━━━━━━ 手工下发："@
                        + kind.label_text() + " ━━━━━━━━━━"@
                }
                &&& offer matches Offer::Execute(action) ==> {
                    &&& snapshot.collect_logs == state.snapshot.collect_logs
                    &&& snapshot.dispatch_logs.len() > 0
                    &&& snapshot.dispatch_logs.last().category is CommandDivider
                    &&& snapshot.dispatch_logs.last().summary == "━━━━━━━━━━ 手工下发："@
                        + action.label_text() + " ━━━━━━━━━━"@
                }
                &&& offer is Value || offer is Policy ==> snapshot == state.snapshot
            }
        }),
{
}

/// A step that both queues take is under way until both sides reply; one that
/// they cannot take is over: before the tables are prepared nothing is done, and
/// after that they are dropped.
pub proof fn law_steps_need_both_queues(
    state: CoordinatorState,
    step: ReloadStep,
    generation: u64,
    refusal: Option<(Seq<char>, Seq<char>)>,
    at: u64,
)
    ensures
        ({
            let (after, action) = state.queued(step, generation, refusal, at);
            &&& refusal is None ==> action is Wait && after.snapshot == state.snapshot
                && after.reload == Some(
                (ReloadState { step, generation, collect: None, dispatch: None }),
            )
            &&& refusal is Some ==> after.reload == state.reload
            &&& refusal is Some && step is Prepare ==> action is Wait
            &&& refusal is Some && step is Commit ==> action == (Action::Abort { generation })
        }),
{
}

/// What is known of a step when a reply comes: it waits for the other side, it
/// fails where a side refused or can reply no more, and else the tables are
/// committed after they were prepared and in place after they were committed.
pub open spec fn settles(
    before: CoordinatorState,
    reload: ReloadState,
    after: CoordinatorState,
    action: Action,
) -> bool {
    let agreed = reload.collect == Some(None::<Seq<char>>) && reload.dispatch == Some(
        None::<Seq<char>>,
    );
    if reload.collect is None || reload.dispatch is None {
        after == (CoordinatorState { reload: Some(reload), ..before }) && action is Wait
    } else {
        &&& after.reload is None
        &&& after.generation == before.generation
        &&& agreed && reload.step is Prepare ==> action == (Action::Commit {
            generation: reload.generation,
        }) && after.snapshot == before.snapshot
        &&& agreed && reload.step is Commit ==> action is Wait
        &&& !agreed && reload.step is Prepare ==> action == (Action::Abort {
            generation: reload.generation,
        })
        &&& !agreed && reload.step is Commit ==> action == (Action::Stop { abort: None })
        &&& !(agreed && reload.step is Prepare) && before.capacity > 0 ==> {
            &&& after.snapshot.system_logs.len() > 0
            &&& after.snapshot.system_logs.last().severity == (if agreed {
                Severity::Success
            } else {
                Severity::Error
            })
        }
    }
}

/// A reply counts once and for its own side; a side that can reply no more has
/// refused.
pub proof fn law_replies_settle_the_step(
    state: CoordinatorState,
    reload: ReloadState,
    reply: Option<Option<Seq<char>>>,
    at: u64,
)
    requires
        state.reload == Some(reload),
    ensures
        ({
            let (after, action) = state.collect_replied(reply, at);
            &&& reload.collect is Some ==> after == state && action is Wait
            &&& reload.collect is None ==> exists|told: ReloadState|
                {
                    &&& #[trigger] settles(state, told, after, action)
                    &&& told == (ReloadState { collect: told.collect, ..reload })
                    &&& reply is Some ==> told.collect == reply
                    &&& reply is None ==> (told.collect matches Some(Some(_)))
                }
        }),
        ({
            let (after, action) = state.dispatch_replied(reply, at);
            &&& reload.dispatch is Some ==> after == state && action is Wait
            &&& reload.dispatch is None ==> exists|told: ReloadState|
                {
                    &&& #[trigger] settles(state, told, after, action)
                    &&& told == (ReloadState { dispatch: told.dispatch, ..reload })
                    &&& reply is Some ==> told.dispatch == reply
                    &&& reply is None ==> (told.dispatch matches Some(Some(_)))
                }
        }),
{
    if reload.collect is None {
        let outcome = match reply {
            Some(outcome) => outcome,
            None => Some(CoordinatorState::closed_text("采集"@, reload.step)),
        };
        let (after, action) = state.collect_replied(reply, at);
        lemma_settles(state, ReloadState { collect: Some(outcome), ..reload }, at);
        assert(settles(state, ReloadState { collect: Some(outcome), ..reload }, after, action));
    }
    if reload.dispatch is None {
        let outcome = match reply {
            Some(outcome) => outcome,
            None => Some(CoordinatorState::closed_text("调度"@, reload.step)),
        };
        let (after, action) = state.dispatch_replied(reply, at);
        lemma_settles(state, ReloadState { dispatch: Some(outcome), ..reload }, at);
        assert(settles(state, ReloadState { dispatch: Some(outcome), ..reload }, after, action));
    }
}

proof fn lemma_settles(state: CoordinatorState, reload: ReloadState, at: u64)
    ensures
        settles(state, reload, state.settled(reload, at).0, state.settled(reload, at).1),
{
}

/// A step that takes too long fails: a preparation is dropped, and a commit stops
/// both sides. Without a step there is nothing to fail.
pub proof fn law_steps_may_take_too_long(state: CoordinatorState, at: u64)
    ensures
        ({
            let (after, action) = state.timed_out(at);
            match state.reload {
                None => after == state && action is Wait,
                Some(reload) => {
                    &&& after.reload is None
                    &&& reload.step is Prepare ==> action == (Action::Abort {
                        generation: reload.generation,
                    })
                    &&& reload.step is Commit ==> action == (Action::Stop { abort: None })
                    &&& state.capacity > 0 ==> after.snapshot.system_logs.len() > 0
                        && after.snapshot.system_logs.last().severity is Error
                },
            }
        }),
{
}

} // verus!
