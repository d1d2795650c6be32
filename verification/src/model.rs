//! The vocabulary of the station: point kinds, log entries, connection views
//! and the requests and events that its parts exchange.

use crate::config::{
    copy_dispatch_points, dispatch_views, CollectPointConfig, DispatchPointConfig,
    DispatchPointView,
};
use crate::number::{Real, Sample, SampleView};
use crate::text::{copy_texts, texts};
use std::collections::VecDeque;
use vstd::prelude::*;

verus! {

/// The kind of value that a simulated point of the collecting side holds.
#[derive(Debug, Clone, Copy, PartialEq, Eq, Structural)]
pub enum CollectPointKind {
    SinglePoint,
    DoublePoint,
    Normalized,
    NormalizedNoQuality,
    Float,
    Counter,
}

impl CollectPointKind {
    pub open spec fn label_text(self) -> Seq<char> {
        match self {
            Self::SinglePoint => "单点"@,
            Self::DoublePoint => "双点"@,
            Self::Normalized => "归一化遥测"@,
            Self::NormalizedNoQuality => "无品质遥测"@,
            Self::Float => "短浮点遥测"@,
            Self::Counter => "电度"@,
        }
    }

    /// The text that the operator reads.
    pub fn label(self) -> (result: &'static str)
        ensures
            result@ == self.label_text(),
    {
        match self {
            Self::SinglePoint => "单点",
            Self::DoublePoint => "双点",
            Self::Normalized => "归一化遥测",
            Self::NormalizedNoQuality => "无品质遥测",
            Self::Float => "短浮点遥测",
            Self::Counter => "电度",
        }
    }

    pub open spec fn type_id_text(self) -> Seq<char> {
        match self {
            Self::SinglePoint => "M_SP_NA_1"@,
            Self::DoublePoint => "M_DP_NA_1"@,
            Self::Normalized => "M_ME_NA_1"@,
            Self::NormalizedNoQuality => "M_ME_ND_1"@,
            Self::Float => "M_ME_NC_1"@,
            Self::Counter => "M_IT_NA_1"@,
        }
    }

    /// The mnemonic of the type identification.
    pub fn type_id(self) -> (result: &'static str)
        ensures
            result@ == self.type_id_text(),
    {
        match self {
            Self::SinglePoint => "M_SP_NA_1",
            Self::DoublePoint => "M_DP_NA_1",
            Self::Normalized => "M_ME_NA_1",
            Self::NormalizedNoQuality => "M_ME_ND_1",
            Self::Float => "M_ME_NC_1",
            Self::Counter => "M_IT_NA_1",
        }
    }
}

/// Whether a simulated point is reported, controlled, or both.
#[derive(Debug, Clone, Copy, PartialEq, Eq, Structural)]
pub enum PointPurpose {
    Data,
    ControlTarget,
    Both,
}

impl PointPurpose {
    pub open spec fn data(self) -> bool {
        self is Data || self is Both
    }

    pub open spec fn control(self) -> bool {
        self is ControlTarget || self is Both
    }

    pub fn includes_data(self) -> (result: bool)
        ensures
            result == self.data(),
    {
        matches!(self, Self::Data | Self::Both)
    }

    pub fn includes_control(self) -> (result: bool)
        ensures
            result == self.control(),
    {
        matches!(self, Self::ControlTarget | Self::Both)
    }
}

impl Default for PointPurpose {
    fn default() -> (result: Self)
        ensures
            result is Data,
    {
        Self::Data
    }
}

/// The command that a control target answers to.
#[derive(Debug, Clone, Copy, PartialEq, Eq, Structural)]
pub enum ControlKind {
    Single,
    Double,
    Setpoint,
    Regulating,
}

/// How the objects of a report are addressed on the wire.
#[derive(Debug, Clone, Copy, PartialEq, Eq, Structural)]
pub enum AddressingMode {
    Individual,
    Sequence,
    Auto,
}

impl Default for AddressingMode {
    fn default() -> (result: Self)
        ensures
            result is Individual,
    {
        Self::Individual
    }
}

/// How a control target answers by default.
#[derive(Debug, Clone, Copy, PartialEq, Eq, Structural)]
pub enum DefaultResponseMode {
    Success,
    Reject,
    ActConOnly,
    Silent,
    DelaySuccess,
}

impl Default for DefaultResponseMode {
    fn default() -> (result: Self)
        ensures
            result is Success,
    {
        Self::Success
    }
}

/// The kind of a point that the dispatching side knows.
#[derive(Debug, Clone, Copy, PartialEq, Eq, Structural)]
pub enum DispatchPointKind {
    SinglePoint,
    DoublePoint,
    Float,
    Counter,
    SingleControl,
    DoubleControl,
    RegulatingStep,
    NormalizedSetpoint,
    ScaledSetpoint,
    FloatSetpoint,
}

impl DispatchPointKind {
    pub open spec fn label_text(self) -> Seq<char> {
        match self {
            Self::SinglePoint => "单点"@,
            Self::DoublePoint => "双点"@,
            Self::Float => "遥测"@,
            Self::Counter => "电度"@,
            Self::SingleControl => "单点遥控"@,
            Self::DoubleControl => "双点遥控"@,
            Self::RegulatingStep => "升降控制"@,
            Self::NormalizedSetpoint => "归一化遥调"@,
            Self::ScaledSetpoint => "标度化遥调"@,
            Self::FloatSetpoint => "短浮点遥调"@,
        }
    }

    /// The text that the operator reads.
    pub fn label(self) -> (result: &'static str)
        ensures
            result@ == self.label_text(),
    {
        match self {
            Self::SinglePoint => "单点",
            Self::DoublePoint => "双点",
            Self::Float => "遥测",
            Self::Counter => "电度",
            Self::SingleControl => "单点遥控",
            Self::DoubleControl => "双点遥控",
            Self::RegulatingStep => "升降控制",
            Self::NormalizedSetpoint => "归一化遥调",
            Self::ScaledSetpoint => "标度化遥调",
            Self::FloatSetpoint => "短浮点遥调",
        }
    }

    pub open spec fn type_id_text(self) -> Seq<char> {
        match self {
            Self::SinglePoint => "M_SP_NA_1"@,
            Self::DoublePoint => "M_DP_NA_1"@,
            Self::Float => "M_ME_NC_1"@,
            Self::Counter => "M_IT_NA_1"@,
            Self::SingleControl => "C_SC_NA_1"@,
            Self::DoubleControl => "C_DC_NA_1"@,
            Self::RegulatingStep => "C_RC_NA_1"@,
            Self::NormalizedSetpoint => "C_SE_NA_1"@,
            Self::ScaledSetpoint => "C_SE_NB_1"@,
            Self::FloatSetpoint => "C_SE_NC_1"@,
        }
    }

    /// The mnemonic of the type identification.
    pub fn type_id(self) -> (result: &'static str)
        ensures
            result@ == self.type_id_text(),
    {
        match self {
            Self::SinglePoint => "M_SP_NA_1",
            Self::DoublePoint => "M_DP_NA_1",
            Self::Float => "M_ME_NC_1",
            Self::Counter => "M_IT_NA_1",
            Self::SingleControl => "C_SC_NA_1",
            Self::DoubleControl => "C_DC_NA_1",
            Self::RegulatingStep => "C_RC_NA_1",
            Self::NormalizedSetpoint => "C_SE_NA_1",
            Self::ScaledSetpoint => "C_SE_NB_1",
            Self::FloatSetpoint => "C_SE_NC_1",
        }
    }

    /// The kinds that stand for a command; the others are expected values.
    pub open spec fn command(self) -> bool {
        !(self is SinglePoint || self is DoublePoint || self is Float || self is Counter)
    }

    pub fn is_command(self) -> (result: bool)
        ensures
            result == self.command(),
    {
        matches!(
            self,
            Self::SingleControl
                | Self::DoubleControl
                | Self::RegulatingStep
                | Self::NormalizedSetpoint
                | Self::ScaledSetpoint
                | Self::FloatSetpoint
        )
    }
}

/// What the dispatching side uses a point for.
#[derive(Debug, Clone, Copy, PartialEq, Eq, Structural)]
pub enum DispatchPointPurpose {
    ExpectedGeneral,
    ExpectedEnergy,
    Command,
}

impl Default for DispatchPointPurpose {
    fn default() -> (result: Self)
        ensures
            result is Command,
    {
        Self::Command
    }
}

/// The side of the station that an entry belongs to.
#[derive(Debug, Clone, Copy, PartialEq, Eq, Structural)]
pub enum Side {
    Collect,
    Dispatch,
    System,
}

impl Side {
    pub open spec fn label_text(self) -> Seq<char> {
        match self {
            Self::Collect => "采集侧"@,
            Self::Dispatch => "调度侧"@,
            Self::System => "系统"@,
        }
    }

    /// The text that the operator reads.
    pub fn label(self) -> (result: &'static str)
        ensures
            result@ == self.label_text(),
    {
        match self {
            Self::Collect => "采集侧",
            Self::Dispatch => "调度侧",
            Self::System => "系统",
        }
    }
}

/// The direction of a logged frame.
#[derive(Debug, Clone, Copy, PartialEq, Eq, Structural)]
pub enum Direction {
    Incoming,
    Outgoing,
    Internal,
}

impl Direction {
    pub open spec fn label_text(self) -> Seq<char> {
        match self {
            Self::Incoming => "接收"@,
            Self::Outgoing => "发送"@,
            Self::Internal => "状态"@,
        }
    }

    /// The text that the operator reads.
    pub fn label(self) -> (result: &'static str)
        ensures
            result@ == self.label_text(),
    {
        match self {
            Self::Incoming => "接收",
            Self::Outgoing => "发送",
            Self::Internal => "状态",
        }
    }
}

/// How a log entry is highlighted.
#[derive(Debug, Clone, Copy, PartialEq, Eq, Structural)]
pub enum Severity {
    Normal,
    Success,
    Warning,
    Error,
}

/// What a log entry is about.
#[derive(Debug, Clone, Copy, PartialEq, Eq, Structural)]
pub enum LogCategory {
    Connection,
    Protocol,
    ActiveUpload,
    CommandDivider,
    Interrogation,
    Control,
    Configuration,
    KeepAlive,
}

/// The state of a connection.
#[derive(Debug, Clone, Copy, PartialEq, Eq, Structural)]
pub enum ConnectionPhase {
    Disabled,
    Listening,
    Disconnected,
    Connecting,
    ConnectedStopped,
    Starting,
    Active,
    Stopping,
    ReconnectWait,
    Error,
}

impl ConnectionPhase {
    pub open spec fn label_text(self) -> Seq<char> {
        match self {
            Self::Disabled => "未启动"@,
            Self::Listening => "监听中"@,
            Self::Disconnected => "未连接"@,
            Self::Connecting => "连接中"@,
            Self::ConnectedStopped => "已连接/未启动传输"@,
            Self::Starting => "STARTDT 等待确认"@,
            Self::Active => "数据传输激活"@,
            Self::Stopping => "STOPDT 等待确认"@,
            Self::ReconnectWait => "等待重连"@,
            Self::Error => "异常"@,
        }
    }

    /// The text that the operator reads.
    pub fn label(self) -> (result: &'static str)
        ensures
            result@ == self.label_text(),
    {
        match self {
            Self::Disabled => "未启动",
            Self::Listening => "监听中",
            Self::Disconnected => "未连接",
            Self::Connecting => "连接中",
            Self::ConnectedStopped => "已连接/未启动传输",
            Self::Starting => "STARTDT 等待确认",
            Self::Active => "数据传输激活",
            Self::Stopping => "STOPDT 等待确认",
            Self::ReconnectWait => "等待重连",
            Self::Error => "异常",
        }
    }
}

/// Which interrogation a snapshot comes from.
#[derive(Debug, Clone, Copy, PartialEq, Eq, Structural)]
pub enum SnapshotKind {
    General,
    Energy,
}

impl SnapshotKind {
    pub open spec fn label_text(self) -> Seq<char> {
        match self {
            Self::General => "总召"@,
            Self::Energy => "电度总召"@,
        }
    }

    /// The text that the operator reads.
    pub fn label(self) -> (result: &'static str)
        ensures
            result@ == self.label_text(),
    {
        match self {
            Self::General => "总召",
            Self::Energy => "电度总召",
        }
    }
}

/// The two steps of a control command.
#[derive(Debug, Clone, Copy, PartialEq, Eq, Structural)]
pub enum ControlPhase {
    Select,
    Execute,
}

impl ControlPhase {
    pub open spec fn label_text(self) -> Seq<char> {
        match self {
            Self::Select => "选择"@,
            Self::Execute => "执行/直接执行"@,
        }
    }

    /// The text that the operator reads.
    pub fn label(self) -> (result: &'static str)
        ensures
            result@ == self.label_text(),
    {
        match self {
            Self::Select => "选择",
            Self::Execute => "执行/直接执行",
        }
    }
}

/// A response that the next matching control gets, once.
#[derive(Debug, Clone, Copy, PartialEq, Eq, Structural)]
pub enum FaultPolicy {
    Success,
    RejectSelect,
    RejectExecute,
    ActConOnly,
    Silent,
    DelaySuccess,
    Disconnect,
}

impl FaultPolicy {
    pub open spec fn label_text(self) -> Seq<char> {
        match self {
            Self::Success => "下一条控制：强制正常成功"@,
            Self::RejectSelect => "下一条选择：拒绝"@,
            Self::RejectExecute => "下一条执行：拒绝"@,
            Self::ActConOnly => "下一条执行：仅 ACTCON"@,
            Self::Silent => "下一条控制：完全静默"@,
            Self::DelaySuccess => "下一条控制：延迟成功"@,
            Self::Disconnect => "下一条控制：立即断链"@,
        }
    }

    /// The text that the operator reads.
    pub fn label(self) -> (result: &'static str)
        ensures
            result@ == self.label_text(),
    {
        match self {
            Self::Success => "下一条控制：强制正常成功",
            Self::RejectSelect => "下一条选择：拒绝",
            Self::RejectExecute => "下一条执行：拒绝",
            Self::ActConOnly => "下一条执行：仅 ACTCON",
            Self::Silent => "下一条控制：完全静默",
            Self::DelaySuccess => "下一条控制：延迟成功",
            Self::Disconnect => "下一条控制：立即断链",
        }
    }

    /// The policies that the operator can choose from.
    pub const ALL: [Self; 7] = [
        Self::Success,
        Self::RejectSelect,
        Self::RejectExecute,
        Self::ActConOnly,
        Self::Silent,
        Self::DelaySuccess,
        Self::Disconnect,
    ];

    /// The policy applies to a command in this phase.
    pub open spec fn applies(self, phase: ControlPhase) -> bool {
        match self {
            Self::RejectSelect => phase is Select,
            Self::RejectExecute => phase is Execute,
            Self::ActConOnly => phase is Execute,
            _ => true,
        }
    }

    pub fn matches(self, phase: ControlPhase) -> (result: bool)
        ensures
            result == self.applies(phase),
    {
        match self {
            Self::Success => true,
            Self::RejectSelect => matches!(phase, ControlPhase::Select),
            Self::RejectExecute | Self::ActConOnly => matches!(phase, ControlPhase::Execute),
            Self::Silent | Self::DelaySuccess | Self::Disconnect => true,
        }
    }
}

/// A spontaneous report that the operator can trigger.
#[derive(Debug, Clone, Copy, PartialEq, Eq, Structural)]
pub enum UploadKind {
    CurrentValues,
    RefreshAll,
    SinglePoint,
    DoublePoint,
    Normalized,
    NormalizedNoQuality,
    Float,
    Counter,
    SingleSoe,
    DoubleSoe,
    InitializationEnd,
}

impl UploadKind {
    pub open spec fn label_text(self) -> Seq<char> {
        match self {
            Self::CurrentValues => "主动上送全部当前值（不改变数据）"@,
            Self::RefreshAll => "全部点变化并主动上送"@,
            Self::SinglePoint => "全部单点遥信变化上送"@,
            Self::DoublePoint => "全部双点遥信变化上送"@,
            Self::Normalized => "全部归一化遥测变化上送"@,
            Self::NormalizedNoQuality => "全部无品质遥测变化上送"@,
            Self::Float => "全部短浮点遥测变化上送"@,
            Self::Counter => "全部电度变化上送"@,
            Self::SingleSoe => "全部单点 SOE 变化上送"@,
            Self::DoubleSoe => "全部双点 SOE 变化上送"@,
            Self::InitializationEnd => "初始化结束主动上送"@,
        }
    }

    /// The text that the operator reads.
    pub fn label(self) -> (result: &'static str)
        ensures
            result@ == self.label_text(),
    {
        match self {
            Self::CurrentValues => "主动上送全部当前值（不改变数据）",
            Self::RefreshAll => "全部点变化并主动上送",
            Self::SinglePoint => "全部单点遥信变化上送",
            Self::DoublePoint => "全部双点遥信变化上送",
            Self::Normalized => "全部归一化遥测变化上送",
            Self::NormalizedNoQuality => "全部无品质遥测变化上送",
            Self::Float => "全部短浮点遥测变化上送",
            Self::Counter => "全部电度变化上送",
            Self::SingleSoe => "全部单点 SOE 变化上送",
            Self::DoubleSoe => "全部双点 SOE 变化上送",
            Self::InitializationEnd => "初始化结束主动上送",
        }
    }

    /// The choices in the order of the menu.
    pub const ALL: [Self; 11] = [
        Self::CurrentValues,
        Self::RefreshAll,
        Self::SinglePoint,
        Self::DoublePoint,
        Self::Normalized,
        Self::NormalizedNoQuality,
        Self::Float,
        Self::Counter,
        Self::SingleSoe,
        Self::DoubleSoe,
        Self::InitializationEnd,
    ];
}

/// A command that the dispatching side can send.
#[derive(Debug, Clone, Copy, PartialEq, Eq, Structural)]
pub enum DispatchAction {
    StartDt,
    StopDt,
    TestFr,
    GeneralInterrogation,
    CounterInterrogation,
    ClockSync,
    Read,
    SingleControl,
    DoubleControl,
    RegulatingStep,
    NormalizedSetpoint,
    ScaledSetpoint,
    FloatSetpoint,
}

impl DispatchAction {
    pub open spec fn label_text(self) -> Seq<char> {
        match self {
            Self::StartDt => "STARTDT"@,
            Self::StopDt => "STOPDT"@,
            Self::TestFr => "手工 TESTFR"@,
            Self::GeneralInterrogation => "总召 C_IC_NA_1"@,
            Self::CounterInterrogation => "电度总召 C_CI_NA_1"@,
            Self::ClockSync => "校时 C_CS_NA_1"@,
            Self::Read => "读命令 C_RD_NA_1"@,
            Self::SingleControl => "单点遥控 C_SC_NA_1"@,
            Self::DoubleControl => "双点遥控 C_DC_NA_1"@,
            Self::RegulatingStep => "升降控制 C_RC_NA_1"@,
            Self::NormalizedSetpoint => "归一化遥调 C_SE_NA_1"@,
            Self::ScaledSetpoint => "标度化遥调 C_SE_NB_1"@,
            Self::FloatSetpoint => "短浮点遥调 C_SE_NC_1"@,
        }
    }

    /// The text that the operator reads.
    pub fn label(self) -> (result: &'static str)
        ensures
            result@ == self.label_text(),
    {
        match self {
            Self::StartDt => "STARTDT",
            Self::StopDt => "STOPDT",
            Self::TestFr => "手工 TESTFR",
            Self::GeneralInterrogation => "总召 C_IC_NA_1",
            Self::CounterInterrogation => "电度总召 C_CI_NA_1",
            Self::ClockSync => "校时 C_CS_NA_1",
            Self::Read => "读命令 C_RD_NA_1",
            Self::SingleControl => "单点遥控 C_SC_NA_1",
            Self::DoubleControl => "双点遥控 C_DC_NA_1",
            Self::RegulatingStep => "升降控制 C_RC_NA_1",
            Self::NormalizedSetpoint => "归一化遥调 C_SE_NA_1",
            Self::ScaledSetpoint => "标度化遥调 C_SE_NB_1",
            Self::FloatSetpoint => "短浮点遥调 C_SE_NC_1",
        }
    }

    /// The choices in the order of the menu.
    pub const ALL: [Self; 13] = [
        Self::StartDt,
        Self::StopDt,
        Self::TestFr,
        Self::GeneralInterrogation,
        Self::CounterInterrogation,
        Self::ClockSync,
        Self::Read,
        Self::SingleControl,
        Self::DoubleControl,
        Self::RegulatingStep,
        Self::NormalizedSetpoint,
        Self::ScaledSetpoint,
        Self::FloatSetpoint,
    ];

    /// The commands that operate a control target.
    pub open spec fn control(self) -> bool {
        self is SingleControl || self is DoubleControl || self is RegulatingStep
            || self is NormalizedSetpoint || self is ScaledSetpoint || self is FloatSetpoint
    }

    /// The commands that change the link and carry no application data.
    pub open spec fn link_only(self) -> bool {
        self is StartDt || self is StopDt || self is TestFr
    }

    pub fn uses_ioa(self) -> (result: bool)
        ensures
            result == (self is Read || self.control()),
    {
        matches!(
            self,
            Self::Read
                | Self::SingleControl
                | Self::DoubleControl
                | Self::RegulatingStep
                | Self::NormalizedSetpoint
                | Self::ScaledSetpoint
                | Self::FloatSetpoint
        )
    }

    pub fn is_control(self) -> (result: bool)
        ensures
            result == self.control(),
    {
        matches!(
            self,
            Self::SingleControl
                | Self::DoubleControl
                | Self::RegulatingStep
                | Self::NormalizedSetpoint
                | Self::ScaledSetpoint
                | Self::FloatSetpoint
        )
    }
}

/// The header fields and addresses of a unit, for the log.
#[derive(Debug, Clone)]
pub struct ProtocolMeta {
    pub type_id: String,
    pub cot: String,
    pub common_address: u16,
    pub originator_address: u8,
    pub sequence: bool,
    pub test: bool,
    pub negative: bool,
    pub ioas: Vec<u32>,
}

#[verifier::ext_equal]
pub struct MetaView {
    pub type_id: Seq<char>,
    pub cot: Seq<char>,
    pub common_address: u16,
    pub originator_address: u8,
    pub sequence: bool,
    pub test: bool,
    pub negative: bool,
    pub ioas: Seq<u32>,
}

impl View for ProtocolMeta {
    type V = MetaView;

    open spec fn view(&self) -> MetaView {
        MetaView {
            type_id: self.type_id@,
            cot: self.cot@,
            common_address: self.common_address,
            originator_address: self.originator_address,
            sequence: self.sequence,
            test: self.test,
            negative: self.negative,
            ioas: self.ioas@,
        }
    }
}

pub open spec fn meta_view(meta: Option<ProtocolMeta>) -> Option<MetaView> {
    match meta {
        Some(meta) => Some(meta@),
        None => None,
    }
}

/// An entry of one of the logs.
#[derive(Debug, Clone)]
pub struct LogEntry {
    pub timestamp_ms: u64,
    pub side: Side,
    pub direction: Direction,
    pub severity: Severity,
    pub category: LogCategory,
    pub summary: String,
    pub details: Vec<String>,
    pub protocol: Option<ProtocolMeta>,
}

#[verifier::ext_equal]
pub struct LogView {
    pub timestamp_ms: u64,
    pub side: Side,
    pub direction: Direction,
    pub severity: Severity,
    pub category: LogCategory,
    pub summary: Seq<char>,
    pub details: Seq<Seq<char>>,
    pub protocol: Option<MetaView>,
}

impl View for LogEntry {
    type V = LogView;

    open spec fn view(&self) -> LogView {
        LogView {
            timestamp_ms: self.timestamp_ms,
            side: self.side,
            direction: self.direction,
            severity: self.severity,
            category: self.category,
            summary: self.summary@,
            details: texts(self.details@),
            protocol: meta_view(self.protocol),
        }
    }
}

/// An entry without details.
pub open spec fn plain_log(
    timestamp_ms: u64,
    side: Side,
    direction: Direction,
    severity: Severity,
    category: LogCategory,
    summary: Seq<char>,
) -> LogView {
    LogView {
        timestamp_ms,
        side,
        direction,
        severity,
        category,
        summary,
        details: Seq::empty(),
        protocol: None,
    }
}

impl LogEntry {
    /// An entry of the present moment.
    pub fn new(
        side: Side,
        direction: Direction,
        severity: Severity,
        category: LogCategory,
        summary: String,
    ) -> (result: Self)
        ensures
            result@ == plain_log(
                result.timestamp_ms,
                side,
                direction,
                severity,
                category,
                summary@,
            ),
    {
        LogEntry::at(now_millis(), side, direction, severity, category, summary)
    }

    /// An entry of a given moment.
    pub fn at(
        timestamp_ms: u64,
        side: Side,
        direction: Direction,
        severity: Severity,
        category: LogCategory,
        summary: String,
    ) -> (result: Self)
        ensures
            result@ == plain_log(timestamp_ms, side, direction, severity, category, summary@),
    {
        let result = LogEntry {
            timestamp_ms,
            side,
            direction,
            severity,
            category,
            summary,
            details: Vec::new(),
            protocol: None,
        };
        assert(result@.details =~= Seq::<Seq<char>>::empty());
        result
    }

    pub fn with_details(self, details: Vec<String>) -> (result: Self)
        ensures
            result@ == (LogView { details: texts(details@), ..self@ }),
    {
        LogEntry {
            timestamp_ms: self.timestamp_ms,
            side: self.side,
            direction: self.direction,
            severity: self.severity,
            category: self.category,
            summary: self.summary,
            details,
            protocol: self.protocol,
        }
    }

    pub fn with_protocol(self, protocol: Option<ProtocolMeta>) -> (result: Self)
        ensures
            result@ == (LogView { protocol: meta_view(protocol), ..self@ }),
    {
        LogEntry {
            timestamp_ms: self.timestamp_ms,
            side: self.side,
            direction: self.direction,
            severity: self.severity,
            category: self.category,
            summary: self.summary,
            details: self.details,
            protocol,
        }
    }
}

fn copy_addresses(addresses: &Vec<u32>) -> (result: Vec<u32>)
    ensures
        result@ == addresses@,
{
    let mut result: Vec<u32> = Vec::new();
    let mut index: usize = 0;
    while index < addresses.len()
        invariant
            index <= addresses@.len(),
            result@ == addresses@.take(index as int),
        decreases addresses.len() - index,
    {
        result.push(addresses[index]);
        assert(result@ =~= addresses@.take(index + 1));
        index += 1;
    }
    assert(addresses@.take(index as int) =~= addresses@);
    result
}

impl ProtocolMeta {
    pub fn copy(&self) -> (result: Self)
        ensures
            result@ == self@,
    {
        ProtocolMeta {
            type_id: self.type_id.clone(),
            cot: self.cot.clone(),
            common_address: self.common_address,
            originator_address: self.originator_address,
            sequence: self.sequence,
            test: self.test,
            negative: self.negative,
            ioas: copy_addresses(&self.ioas),
        }
    }
}

impl LogEntry {
    pub fn copy(&self) -> (result: Self)
        ensures
            result@ == self@,
    {
        LogEntry {
            timestamp_ms: self.timestamp_ms,
            side: self.side,
            direction: self.direction,
            severity: self.severity,
            category: self.category,
            summary: self.summary.clone(),
            details: copy_texts(&self.details),
            protocol: match &self.protocol {
                Some(meta) => Some(meta.copy()),
                None => None,
            },
        }
    }
}

/// The views of a log.
pub open spec fn log_views(logs: Seq<LogEntry>) -> Seq<LogView> {
    logs.map_values(|entry: LogEntry| entry@)
}

pub fn copy_logs(logs: &VecDeque<LogEntry>) -> (result: VecDeque<LogEntry>)
    ensures
        log_views(result@) == log_views(logs@),
{
    let mut result: VecDeque<LogEntry> = VecDeque::new();
    let mut index: usize = 0;
    while index < logs.len()
        invariant
            index <= logs@.len(),
            result@.len() == index,
            forall|i: int| 0 <= i < index ==> (#[trigger] result@[i])@ == logs@[i]@,
        decreases logs.len() - index,
    {
        result.push_back(logs[index].copy());
        index += 1;
    }
    assert(log_views(result@) =~= log_views(logs@));
    result
}

/// Reads `std::time::SystemTime::now` as milliseconds since the Unix epoch.
/// Nothing is claimed of the result.
#[verifier::external_body]
pub fn now_millis() -> u64 {
    std::time::SystemTime::now()
        .duration_since(std::time::SystemTime::UNIX_EPOCH)
        .map_or(0, |duration| duration.as_millis() as u64)
}

/// What the operator sees of a connection.
#[derive(Debug, Clone)]
pub struct ConnectionView {
    pub phase: ConnectionPhase,
    pub endpoint: String,
    pub peer: Option<String>,
    pub detail: String,
    pub last_rx_ms: Option<u64>,
    pub last_tx_ms: Option<u64>,
}

#[verifier::ext_equal]
pub struct ConnectionState {
    pub phase: ConnectionPhase,
    pub endpoint: Seq<char>,
    pub peer: Option<Seq<char>>,
    pub detail: Seq<char>,
    pub last_rx_ms: Option<u64>,
    pub last_tx_ms: Option<u64>,
}

pub open spec fn text_view(text: Option<String>) -> Option<Seq<char>> {
    match text {
        Some(text) => Some(text@),
        None => None,
    }
}

pub fn copy_text(text: &Option<String>) -> (result: Option<String>)
    ensures
        text_view(result) == text_view(*text),
{
    match text {
        Some(text) => Some(text.clone()),
        None => None,
    }
}

impl View for ConnectionView {
    type V = ConnectionState;

    open spec fn view(&self) -> ConnectionState {
        ConnectionState {
            phase: self.phase,
            endpoint: self.endpoint@,
            peer: text_view(self.peer),
            detail: self.detail@,
            last_rx_ms: self.last_rx_ms,
            last_tx_ms: self.last_tx_ms,
        }
    }
}

impl ConnectionView {
    pub fn new(phase: ConnectionPhase, endpoint: String) -> (result: Self)
        ensures
            result@ == (ConnectionState {
                phase,
                endpoint: endpoint@,
                peer: None,
                detail: Seq::empty(),
                last_rx_ms: None,
                last_tx_ms: None,
            }),
    {
        ConnectionView {
            phase,
            endpoint,
            peer: None,
            detail: String::new(),
            last_rx_ms: None,
            last_tx_ms: None,
        }
    }

    pub fn copy(&self) -> (result: Self)
        ensures
            result@ == self@,
    {
        ConnectionView {
            phase: self.phase,
            endpoint: self.endpoint.clone(),
            peer: copy_text(&self.peer),
            detail: self.detail.clone(),
            last_rx_ms: self.last_rx_ms,
            last_tx_ms: self.last_tx_ms,
        }
    }
}

/// A row of a value table.
#[derive(Debug, Clone)]
pub struct PointView {
    pub ioa: u32,
    pub name: String,
    pub type_id: String,
    pub kind_name: String,
    pub value: Option<String>,
    pub quality: String,
    pub updated_ms: Option<u64>,
    pub configured: bool,
}

#[verifier::ext_equal]
pub struct PointRow {
    pub ioa: u32,
    pub name: Seq<char>,
    pub type_id: Seq<char>,
    pub kind_name: Seq<char>,
    pub value: Option<Seq<char>>,
    pub quality: Seq<char>,
    pub updated_ms: Option<u64>,
    pub configured: bool,
}

impl View for PointView {
    type V = PointRow;

    open spec fn view(&self) -> PointRow {
        PointRow {
            ioa: self.ioa,
            name: self.name@,
            type_id: self.type_id@,
            kind_name: self.kind_name@,
            value: text_view(self.value),
            quality: self.quality@,
            updated_ms: self.updated_ms,
            configured: self.configured,
        }
    }
}

impl PointView {
    pub fn copy(&self) -> (result: Self)
        ensures
            result@ == self@,
    {
        PointView {
            ioa: self.ioa,
            name: self.name.clone(),
            type_id: self.type_id.clone(),
            kind_name: self.kind_name.clone(),
            value: copy_text(&self.value),
            quality: self.quality.clone(),
            updated_ms: self.updated_ms,
            configured: self.configured,
        }
    }
}

/// The views of a table of rows.
pub open spec fn rows(values: Seq<PointView>) -> Seq<PointRow> {
    values.map_values(|value: PointView| value@)
}

pub fn copy_rows(values: &Vec<PointView>) -> (result: Vec<PointView>)
    ensures
        rows(result@) == rows(values@),
{
    let mut result: Vec<PointView> = Vec::new();
    let mut index: usize = 0;
    while index < values.len()
        invariant
            index <= values.len(),
            result@.len() == index,
            forall|i: int| 0 <= i < index ==> (#[trigger] result@[i])@ == values@[i]@,
        decreases values.len() - index,
    {
        result.push(values[index].copy());
        index += 1;
    }
    assert(rows(result@) =~= rows(values@));
    result
}

/// A command as the operator asks for it.
#[derive(Debug, Clone, Copy, PartialEq, Eq, Structural)]
pub struct DispatchRequest {
    pub action: DispatchAction,
    pub ioa: u32,
    pub value: Real,
    pub phase: ControlPhase,
    pub common_address: u16,
    pub originator_address: u8,
    pub qualifier: u8,
    pub test: bool,
    pub qoi: u8,
    pub qcc_request: u8,
    pub qcc_freeze: u8,
    pub repeat: u16,
    pub interval_ms: u64,
    /// The time to set, in milliseconds since the Unix epoch; without one the
    /// clock is read when the command is sent.
    pub clock_time_ms: Option<u64>,
}

/// What the operator asks the station to do.
#[derive(Debug)]
pub enum RuntimeCommand {
    CollectUpload(UploadKind),
    SetCollectValue { ioa: u32, type_id: String, value: Sample },
    Dispatch(DispatchRequest),
    ClearLogs(Side),
    SetFaultPolicy(Option<FaultPolicy>),
    ReloadConfig,
    Quit,
}

#[verifier::ext_equal]
pub enum CommandView {
    CollectUpload(UploadKind),
    SetCollectValue { ioa: u32, type_id: Seq<char>, value: SampleView },
    Dispatch(DispatchRequest),
    ClearLogs(Side),
    SetFaultPolicy(Option<FaultPolicy>),
    ReloadConfig,
    Quit,
}

impl View for RuntimeCommand {
    type V = CommandView;

    open spec fn view(&self) -> CommandView {
        match self {
            RuntimeCommand::CollectUpload(kind) => CommandView::CollectUpload(*kind),
            RuntimeCommand::SetCollectValue { ioa, type_id, value } => CommandView::SetCollectValue {
                ioa: *ioa,
                type_id: type_id@,
                value: value@,
            },
            RuntimeCommand::Dispatch(request) => CommandView::Dispatch(*request),
            RuntimeCommand::ClearLogs(side) => CommandView::ClearLogs(*side),
            RuntimeCommand::SetFaultPolicy(policy) => CommandView::SetFaultPolicy(*policy),
            RuntimeCommand::ReloadConfig => CommandView::ReloadConfig,
            RuntimeCommand::Quit => CommandView::Quit,
        }
    }
}

/// What the collecting side is asked to do.
#[derive(Debug, Clone)]
pub enum CollectCommand {
    Upload(UploadKind),
    SetPointValue { ioa: u32, type_id: String, value: Sample },
    SetFaultPolicy(Option<FaultPolicy>),
    PrepareReload { generation: u64, points: Vec<CollectPointConfig> },
    CommitReload { generation: u64 },
    AbortReload(u64),
}

/// What the dispatching side is asked to do.
#[derive(Debug, Clone)]
pub enum DispatchCommand {
    Execute(DispatchRequest),
    PrepareReload { generation: u64, points: Vec<DispatchPointConfig> },
    CommitReload { generation: u64 },
    AbortReload(u64),
}

/// What the two sides report.
#[derive(Debug, Clone)]
pub enum RuntimeEvent {
    Log(LogEntry),
    Connection { side: Side, view: ConnectionView },
    CollectValues(Vec<PointView>),
    DispatchSnapshot { kind: SnapshotKind, values: Vec<PointView> },
    DispatchValues { kind: SnapshotKind, values: Vec<PointView> },
    RoundPending { kind: SnapshotKind, pending: bool },
    ApplicationPending(usize),
    FaultPolicyChanged(Option<FaultPolicy>),
    DispatchExpectedReloaded {
        general: Vec<PointView>,
        energy: Vec<PointView>,
        points: Vec<DispatchPointConfig>,
    },
}

#[verifier::ext_equal]
pub enum EventView {
    Log(LogView),
    Connection { side: Side, view: ConnectionState },
    CollectValues(Seq<PointRow>),
    DispatchSnapshot { kind: SnapshotKind, values: Seq<PointRow> },
    DispatchValues { kind: SnapshotKind, values: Seq<PointRow> },
    RoundPending { kind: SnapshotKind, pending: bool },
    ApplicationPending(usize),
    FaultPolicyChanged(Option<FaultPolicy>),
    DispatchExpectedReloaded {
        general: Seq<PointRow>,
        energy: Seq<PointRow>,
        points: Seq<DispatchPointView>,
    },
}

impl View for RuntimeEvent {
    type V = EventView;

    open spec fn view(&self) -> EventView {
        match self {
            RuntimeEvent::Log(entry) => EventView::Log(entry@),
            RuntimeEvent::Connection { side, view } => EventView::Connection {
                side: *side,
                view: view@,
            },
            RuntimeEvent::CollectValues(values) => EventView::CollectValues(rows(values@)),
            RuntimeEvent::DispatchSnapshot { kind, values } => EventView::DispatchSnapshot {
                kind: *kind,
                values: rows(values@),
            },
            RuntimeEvent::DispatchValues { kind, values } => EventView::DispatchValues {
                kind: *kind,
                values: rows(values@),
            },
            RuntimeEvent::RoundPending { kind, pending } => EventView::RoundPending {
                kind: *kind,
                pending: *pending,
            },
            RuntimeEvent::ApplicationPending(count) => EventView::ApplicationPending(*count),
            RuntimeEvent::FaultPolicyChanged(policy) => EventView::FaultPolicyChanged(*policy),
            RuntimeEvent::DispatchExpectedReloaded { general, energy, points } =>
                EventView::DispatchExpectedReloaded {
                general: rows(general@),
                energy: rows(energy@),
                points: dispatch_views(points@),
            },
        }
    }
}

/// Everything that the operator sees.
#[derive(Debug)]
pub struct AppSnapshot {
    pub collect_connection: ConnectionView,
    pub dispatch_connection: ConnectionView,
    pub collect_logs: VecDeque<LogEntry>,
    pub dispatch_logs: VecDeque<LogEntry>,
    pub system_logs: VecDeque<LogEntry>,
    pub collect_values: Vec<PointView>,
    pub dispatch_general: Vec<PointView>,
    pub dispatch_energy: Vec<PointView>,
    pub dispatch_current_general: Vec<PointView>,
    pub dispatch_current_energy: Vec<PointView>,
    pub dispatch_points: Vec<DispatchPointConfig>,
    pub general_pending: bool,
    pub energy_pending: bool,
    pub application_pending: usize,
    pub fault_policy: Option<FaultPolicy>,
}

#[verifier::ext_equal]
pub struct SnapshotState {
    pub collect_connection: ConnectionState,
    pub dispatch_connection: ConnectionState,
    pub collect_logs: Seq<LogView>,
    pub dispatch_logs: Seq<LogView>,
    pub system_logs: Seq<LogView>,
    pub collect_values: Seq<PointRow>,
    pub dispatch_general: Seq<PointRow>,
    pub dispatch_energy: Seq<PointRow>,
    pub dispatch_current_general: Seq<PointRow>,
    pub dispatch_current_energy: Seq<PointRow>,
    pub dispatch_points: Seq<DispatchPointView>,
    pub general_pending: bool,
    pub energy_pending: bool,
    pub application_pending: usize,
    pub fault_policy: Option<FaultPolicy>,
}

impl View for AppSnapshot {
    type V = SnapshotState;

    open spec fn view(&self) -> SnapshotState {
        SnapshotState {
            collect_connection: self.collect_connection@,
            dispatch_connection: self.dispatch_connection@,
            collect_logs: log_views(self.collect_logs@),
            dispatch_logs: log_views(self.dispatch_logs@),
            system_logs: log_views(self.system_logs@),
            collect_values: rows(self.collect_values@),
            dispatch_general: rows(self.dispatch_general@),
            dispatch_energy: rows(self.dispatch_energy@),
            dispatch_current_general: rows(self.dispatch_current_general@),
            dispatch_current_energy: rows(self.dispatch_current_energy@),
            dispatch_points: dispatch_views(self.dispatch_points@),
            general_pending: self.general_pending,
            energy_pending: self.energy_pending,
            application_pending: self.application_pending,
            fault_policy: self.fault_policy,
        }
    }
}

impl AppSnapshot {
    pub fn copy(&self) -> (result: Self)
        ensures
            result@ == self@,
    {
        AppSnapshot {
            collect_connection: self.collect_connection.copy(),
            dispatch_connection: self.dispatch_connection.copy(),
            collect_logs: copy_logs(&self.collect_logs),
            dispatch_logs: copy_logs(&self.dispatch_logs),
            system_logs: copy_logs(&self.system_logs),
            collect_values: copy_rows(&self.collect_values),
            dispatch_general: copy_rows(&self.dispatch_general),
            dispatch_energy: copy_rows(&self.dispatch_energy),
            dispatch_current_general: copy_rows(&self.dispatch_current_general),
            dispatch_current_energy: copy_rows(&self.dispatch_current_energy),
            dispatch_points: copy_dispatch_points(&self.dispatch_points),
            general_pending: self.general_pending,
            energy_pending: self.energy_pending,
            application_pending: self.application_pending,
            fault_policy: self.fault_policy,
        }
    }
}

/// A moment: the wall clock for the operator, and a clock that never goes back
/// for the timers. Both in milliseconds.
#[derive(Debug, Clone, Copy, PartialEq, Eq, Structural)]
pub struct Moment {
    pub wall_ms: u64,
    pub tick_ms: u64,
}

} // verus!
