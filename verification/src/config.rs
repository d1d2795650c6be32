//! Settings and point tables: what a configuration may hold.

use crate::model::{
    AddressingMode, CollectPointKind, ControlKind, DefaultResponseMode, DispatchPointKind,
    DispatchPointPurpose, PointPurpose,
};
use crate::number::{
    double_at_most, double_value, whole_real, whole_sample, Real, Sample, SampleView,
};
use crate::protocol::iec::{validate_windows, window_refusal};
use crate::protocol::wire::LinkConfig;
use crate::text::{
    ascii_lowercase, blank, cat, cat_number, debug_rendering, debug_text, decimal, is_blank, lowered,
    same_text, trim, trimmed,
};
use vstd::prelude::*;

verus! {

/// Where the settings are read from.
pub const MAIN_CONFIG_PATH: &'static str = "config/agcavc104test.toml";

/// Where the collecting side's table is read from, unless the settings say
/// otherwise.
pub const DEFAULT_COLLECT_POINTS_PATH: &'static str = "config/collect-points.toml";

/// Where the dispatching side's table is read from, unless the settings say
/// otherwise.
pub const DEFAULT_DISPATCH_POINTS_PATH: &'static str = "config/dispatch-points.toml";

/// The timers of the protocol in milliseconds, and its windows.
#[derive(Debug, Clone, Copy, PartialEq, Eq, Structural)]
pub struct ProtocolSettings {
    pub t0_ms: u64,
    pub t1_ms: u64,
    pub t2_ms: u64,
    pub t3_ms: u64,
    pub k: u16,
    pub w: u16,
    pub max_pending_outgoing_asdu: u32,
    pub originator_address: u8,
}

impl ProtocolSettings {
    /// The part of the settings that a link works with.
    pub fn to_iec104(&self) -> (result: LinkConfig)
        ensures
            result == (LinkConfig {
                t1_ms: self.t1_ms,
                t2_ms: self.t2_ms,
                t3_ms: self.t3_ms,
                k: self.k,
                w: self.w,
            }),
    {
        LinkConfig {
            t1_ms: self.t1_ms,
            t2_ms: self.t2_ms,
            t3_ms: self.t3_ms,
            k: self.k,
            w: self.w,
        }
    }
}

impl Default for ProtocolSettings {
    fn default() -> (result: Self)
        ensures
            result == (ProtocolSettings {
                t0_ms: 10_000,
                t1_ms: 15_000,
                t2_ms: 10_000,
                t3_ms: 20_000,
                k: 12,
                w: 8,
                max_pending_outgoing_asdu: 1024,
                originator_address: 0,
            }),
    {
        ProtocolSettings {
            t0_ms: 10_000,
            t1_ms: 15_000,
            t2_ms: 10_000,
            t3_ms: 20_000,
            k: 12,
            w: 8,
            max_pending_outgoing_asdu: 1024,
            originator_address: 0,
        }
    }
}

/// Where the collecting side listens, and how long it delays a delayed answer.
#[derive(Debug, Clone)]
pub struct CollectSettings {
    pub bind_host: String,
    pub bind_port: u16,
    pub common_address: u16,
    pub fault_delay_ms: u64,
}

impl Default for CollectSettings {
    fn default() -> (result: Self)
        ensures
            result.bind_host@ == "127.0.0.1"@,
            result.bind_port == 2405,
            result.common_address == 1,
            result.fault_delay_ms == 2_000,
    {
        CollectSettings {
            bind_host: "127.0.0.1".to_owned(),
            bind_port: 2405,
            common_address: 1,
            fault_delay_ms: 2_000,
        }
    }
}

/// Where the dispatching side connects to, and when it tries again.
#[derive(Debug, Clone)]
pub struct DispatchSettings {
    pub target_host: String,
    pub target_port: u16,
    pub common_address: u16,
    pub reconnect_ms: u64,
}

impl Default for DispatchSettings {
    fn default() -> (result: Self)
        ensures
            result.target_host@ == "127.0.0.1"@,
            result.target_port == 2404,
            result.common_address == 1,
            result.reconnect_ms == 3_000,
    {
        DispatchSettings {
            target_host: "127.0.0.1".to_owned(),
            target_port: 2404,
            common_address: 1,
            reconnect_ms: 3_000,
        }
    }
}

/// A host and a port as one text.
pub open spec fn endpoint_text(host: Seq<char>, port: u16) -> Seq<char> {
    host + ":"@ + decimal(port as nat)
}

pub fn endpoint(host: &str, port: u16) -> (result: String)
    ensures
        result@ == endpoint_text(host@, port),
{
    cat_number(cat(host.to_owned(), ":"), port as u64)
}

/// The pace of the screen and the sizes of the buffers.
#[derive(Debug, Clone, Copy, PartialEq, Eq, Structural)]
pub struct UiSettings {
    pub tick_ms: u64,
    pub log_capacity: usize,
    pub command_capacity: usize,
    pub event_capacity: usize,
}

impl Default for UiSettings {
    fn default() -> (result: Self)
        ensures
            result == (UiSettings {
                tick_ms: 100,
                log_capacity: 2_000,
                command_capacity: 256,
                event_capacity: 4_096,
            }),
    {
        UiSettings {
            tick_ms: 100,
            log_capacity: 2_000,
            command_capacity: 256,
            event_capacity: 4_096,
        }
    }
}

/// Where the point tables are read from.
#[derive(Debug, Clone)]
pub struct PointPaths {
    pub collect: String,
    pub dispatch: String,
}

impl Default for PointPaths {
    fn default() -> (result: Self)
        ensures
            result.collect@ == DEFAULT_COLLECT_POINTS_PATH@,
            result.dispatch@ == DEFAULT_DISPATCH_POINTS_PATH@,
    {
        PointPaths {
            collect: DEFAULT_COLLECT_POINTS_PATH.to_owned(),
            dispatch: DEFAULT_DISPATCH_POINTS_PATH.to_owned(),
        }
    }
}

/// The settings as a file gives them.
#[derive(Debug, Clone)]
pub struct MainSettings {
    pub protocol: ProtocolSettings,
    pub collect: CollectSettings,
    pub dispatch: DispatchSettings,
    pub ui: UiSettings,
    pub points: PointPaths,
}

/// A simulated point of the collecting side.
#[derive(Debug, Clone)]
pub struct CollectPointConfig {
    pub name: String,
    pub ioa: u32,
    pub kind: CollectPointKind,
    pub purpose: PointPurpose,
    pub control: Option<ControlKind>,
    pub group: u8,
    pub initial: Sample,
    pub min: Sample,
    pub max: Sample,
    pub step: Real,
    pub soe: bool,
    pub quality: String,
    pub addressing: AddressingMode,
    pub response: DefaultResponseMode,
    pub response_delay_ms: u64,
}

#[verifier::ext_equal]
pub struct CollectPointView {
    pub name: Seq<char>,
    pub ioa: u32,
    pub kind: CollectPointKind,
    pub purpose: PointPurpose,
    pub control: Option<ControlKind>,
    pub group: u8,
    pub initial: SampleView,
    pub min: SampleView,
    pub max: SampleView,
    pub step: Real,
    pub soe: bool,
    pub quality: Seq<char>,
    pub addressing: AddressingMode,
    pub response: DefaultResponseMode,
    pub response_delay_ms: u64,
}

impl View for CollectPointConfig {
    type V = CollectPointView;

    open spec fn view(&self) -> CollectPointView {
        CollectPointView {
            name: self.name@,
            ioa: self.ioa,
            kind: self.kind,
            purpose: self.purpose,
            control: self.control,
            group: self.group,
            initial: self.initial@,
            min: self.min@,
            max: self.max@,
            step: self.step,
            soe: self.soe,
            quality: self.quality@,
            addressing: self.addressing,
            response: self.response,
            response_delay_ms: self.response_delay_ms,
        }
    }
}

impl CollectPointConfig {
    pub fn copy(&self) -> (result: Self)
        ensures
            result@ == self@,
    {
        CollectPointConfig {
            name: self.name.clone(),
            ioa: self.ioa,
            kind: self.kind,
            purpose: self.purpose,
            control: self.control,
            group: self.group,
            initial: self.initial.copy(),
            min: self.min.copy(),
            max: self.max.copy(),
            step: self.step,
            soe: self.soe,
            quality: self.quality.clone(),
            addressing: self.addressing,
            response: self.response,
            response_delay_ms: self.response_delay_ms,
        }
    }
}

pub open spec fn collect_views(points: Seq<CollectPointConfig>) -> Seq<CollectPointView> {
    points.map_values(|point: CollectPointConfig| point@)
}

/// A point that the dispatching side expects or commands.
#[derive(Debug, Clone)]
pub struct DispatchPointConfig {
    pub name: String,
    pub ioa: u32,
    pub kind: DispatchPointKind,
    pub purpose: DispatchPointPurpose,
    pub min: Option<Sample>,
    pub max: Option<Sample>,
    pub default_value: Option<Sample>,
}

#[verifier::ext_equal]
pub struct DispatchPointView {
    pub name: Seq<char>,
    pub ioa: u32,
    pub kind: DispatchPointKind,
    pub purpose: DispatchPointPurpose,
    pub min: Option<SampleView>,
    pub max: Option<SampleView>,
    pub default_value: Option<SampleView>,
}

pub open spec fn sample_view(sample: Option<Sample>) -> Option<SampleView> {
    match sample {
        Some(sample) => Some(sample@),
        None => None,
    }
}

pub fn copy_sample(sample: &Option<Sample>) -> (result: Option<Sample>)
    ensures
        sample_view(result) == sample_view(*sample),
{
    match sample {
        Some(sample) => Some(sample.copy()),
        None => None,
    }
}

impl View for DispatchPointConfig {
    type V = DispatchPointView;

    open spec fn view(&self) -> DispatchPointView {
        DispatchPointView {
            name: self.name@,
            ioa: self.ioa,
            kind: self.kind,
            purpose: self.purpose,
            min: sample_view(self.min),
            max: sample_view(self.max),
            default_value: sample_view(self.default_value),
        }
    }
}

impl DispatchPointConfig {
    pub fn copy(&self) -> (result: Self)
        ensures
            result@ == self@,
    {
        DispatchPointConfig {
            name: self.name.clone(),
            ioa: self.ioa,
            kind: self.kind,
            purpose: self.purpose,
            min: copy_sample(&self.min),
            max: copy_sample(&self.max),
            default_value: copy_sample(&self.default_value),
        }
    }
}

pub open spec fn dispatch_views(points: Seq<DispatchPointConfig>) -> Seq<DispatchPointView> {
    points.map_values(|point: DispatchPointConfig| point@)
}

pub fn copy_dispatch_points(points: &Vec<DispatchPointConfig>) -> (result: Vec<DispatchPointConfig>)
    ensures
        dispatch_views(result@) == dispatch_views(points@),
{
    let mut result: Vec<DispatchPointConfig> = Vec::new();
    let mut index: usize = 0;
    while index < points.len()
        invariant
            index <= points.len(),
            result@.len() == index,
            forall|i: int| 0 <= i < index ==> (#[trigger] result@[i])@ == points@[i]@,
        decreases points.len() - index,
    {
        result.push(points[index].copy());
        index += 1;
    }
    assert(dispatch_views(result@) =~= dispatch_views(points@));
    result
}

/// Everything that the program starts with.
#[derive(Debug)]
pub struct ToolConfig {
    pub protocol: ProtocolSettings,
    pub collect: CollectSettings,
    pub dispatch: DispatchSettings,
    pub ui: UiSettings,
    pub collect_points: Vec<CollectPointConfig>,
    pub dispatch_points: Vec<DispatchPointConfig>,
}

// ---------------------------------------------------------------------------
// Settings.
pub open spec fn refusal_of<T>(result: Result<T, String>) -> Option<Seq<char>> {
    match result {
        Ok(_) => None,
        Err(text) => Some(text@),
    }
}

pub open spec fn protocol_refusal(protocol: ProtocolSettings) -> Option<Seq<char>> {
    if protocol.t0_ms == 0 || protocol.t1_ms == 0 || protocol.t2_ms == 0 || protocol.t3_ms == 0 {
        Some("protocol T0/T1/T2/T3 必须大于 0"@)
    } else if !(protocol.t2_ms < protocol.t1_ms < protocol.t3_ms) {
        Some("protocol 必须满足 T2 < T1 < T3"@)
    } else {
        match window_refusal(protocol.k, protocol.w) {
            Some(text) => Some("protocol K/W 非法: "@ + text),
            None => None,
        }
    }
}

pub fn validate_protocol(protocol: &ProtocolSettings) -> (result: Result<(), String>)
    ensures
        refusal_of(result) == protocol_refusal(*protocol),
{
    if protocol.t0_ms == 0 || protocol.t1_ms == 0 || protocol.t2_ms == 0 || protocol.t3_ms == 0 {
        return Err("protocol T0/T1/T2/T3 必须大于 0".to_owned());
    }
    if !(protocol.t2_ms < protocol.t1_ms && protocol.t1_ms < protocol.t3_ms) {
        return Err("protocol 必须满足 T2 < T1 < T3".to_owned());
    }
    match validate_windows(protocol.k, protocol.w) {
        Ok(_) => Ok(()),
        Err(text) => Err(cat("protocol K/W 非法: ".to_owned(), text.as_str())),
    }
}

pub fn non_empty(field: &str, value: &str) -> (result: Result<(), String>)
    ensures
        refusal_of(result) == (if blank(value@) {
            Some(field@ + " 不能为空"@)
        } else {
            None
        }),
{
    if is_blank(value) {
        Err(cat(field.to_owned(), " 不能为空"))
    } else {
        Ok(())
    }
}

pub fn non_zero_port(field: &str, value: u16) -> (result: Result<(), String>)
    ensures
        refusal_of(result) == (if value == 0 {
            Some(field@ + " 不能为 0"@)
        } else {
            None
        }),
{
    if value == 0 {
        Err(cat(field.to_owned(), " 不能为 0"))
    } else {
        Ok(())
    }
}

pub fn validate_common_address(field: &str, value: u16) -> (result: Result<u16, String>)
    ensures
        match result {
            Ok(address) => address == value && value != 0 && value != u16::MAX,
            Err(text) => (value == 0 || value == u16::MAX) && text@ == field@
                + " 必须是 1..=65534 的具体站地址"@,
        },
{
    if value == 0 || value == u16::MAX {
        Err(cat(field.to_owned(), " 必须是 1..=65534 的具体站地址"))
    } else {
        Ok(value)
    }
}

pub open spec fn positive_refusal(field: Seq<char>, value: int) -> Option<Seq<char>> {
    if value == 0 {
        Some(field + " 必须大于 0"@)
    } else {
        None
    }
}

pub fn positive(field: &str, value: u64) -> (result: Result<(), String>)
    ensures
        refusal_of(result) == positive_refusal(field@, value as int),
{
    if value == 0 {
        Err(cat(field.to_owned(), " 必须大于 0"))
    } else {
        Ok(())
    }
}

/// Why the settings of a file are refused, if they are.
pub open spec fn settings_refusal(settings: MainSettings) -> Option<Seq<char>> {
    let collect = settings.collect;
    let dispatch = settings.dispatch;
    let ui = settings.ui;
    if protocol_refusal(settings.protocol) is Some {
        protocol_refusal(settings.protocol)
    } else if blank(collect.bind_host@) {
        Some("collect.bind_host"@ + " 不能为空"@)
    } else if collect.bind_port == 0 {
        Some("collect.bind_port"@ + " 不能为 0"@)
    } else if collect.common_address == 0 || collect.common_address == u16::MAX {
        Some("collect.common_address"@ + " 必须是 1..=65534 的具体站地址"@)
    } else if blank(dispatch.target_host@) {
        Some("dispatch.target_host"@ + " 不能为空"@)
    } else if dispatch.target_port == 0 {
        Some("dispatch.target_port"@ + " 不能为 0"@)
    } else if dispatch.common_address == 0 || dispatch.common_address == u16::MAX {
        Some("dispatch.common_address"@ + " 必须是 1..=65534 的具体站地址"@)
    } else if dispatch.reconnect_ms == 0 {
        Some("dispatch.reconnect_ms"@ + " 必须大于 0"@)
    } else if ui.tick_ms == 0 {
        Some("ui.tick_ms"@ + " 必须大于 0"@)
    } else if ui.log_capacity == 0 {
        Some("ui.log_capacity"@ + " 必须大于 0"@)
    } else if ui.command_capacity == 0 {
        Some("ui.command_capacity"@ + " 必须大于 0"@)
    } else if ui.event_capacity == 0 {
        Some("ui.event_capacity"@ + " 必须大于 0"@)
    } else if blank(settings.points.collect@) {
        Some("points.collect"@ + " 不能为空"@)
    } else if blank(settings.points.dispatch@) {
        Some("points.dispatch"@ + " 不能为空"@)
    } else {
        None
    }
}

/// Checks the settings of a file.
pub fn validate_settings(settings: &MainSettings) -> (result: Result<(), String>)
    ensures
        refusal_of(result) == settings_refusal(*settings),
{
    let collect = &settings.collect;
    let dispatch = &settings.dispatch;
    let ui = &settings.ui;
    if let Err(text) = validate_protocol(&settings.protocol) {
        return Err(text);
    }
    if let Err(text) = non_empty("collect.bind_host", collect.bind_host.as_str()) {
        return Err(text);
    }
    if let Err(text) = non_zero_port("collect.bind_port", collect.bind_port) {
        return Err(text);
    }
    if let Err(text) = validate_common_address("collect.common_address", collect.common_address) {
        return Err(text);
    }
    if let Err(text) = non_empty("dispatch.target_host", dispatch.target_host.as_str()) {
        return Err(text);
    }
    if let Err(text) = non_zero_port("dispatch.target_port", dispatch.target_port) {
        return Err(text);
    }
    if let Err(text) = validate_common_address("dispatch.common_address", dispatch.common_address) {
        return Err(text);
    }
    if let Err(text) = positive("dispatch.reconnect_ms", dispatch.reconnect_ms) {
        return Err(text);
    }
    if let Err(text) = positive("ui.tick_ms", ui.tick_ms) {
        return Err(text);
    }
    if let Err(text) = positive("ui.log_capacity", ui.log_capacity as u64) {
        return Err(text);
    }
    if let Err(text) = positive("ui.command_capacity", ui.command_capacity as u64) {
        return Err(text);
    }
    if let Err(text) = positive("ui.event_capacity", ui.event_capacity as u64) {
        return Err(text);
    }
    if let Err(text) = non_empty("points.collect", settings.points.collect.as_str()) {
        return Err(text);
    }
    non_empty("points.dispatch", settings.points.dispatch.as_str())
}

// ---------------------------------------------------------------------------
// Points of the collecting side.
/// A row of the collecting side's table as a file gives it.
#[derive(Debug)]
pub struct CollectPointRow {
    pub name: String,
    pub ioa: u32,
    pub kind: CollectPointKind,
    pub purpose: PointPurpose,
    pub control: Option<ControlKind>,
    pub group: u8,
    pub initial: Sample,
    pub min: Option<Sample>,
    pub max: Option<Sample>,
    pub step: Option<Real>,
    pub soe: bool,
    pub quality: String,
    pub addressing: AddressingMode,
    pub response: DefaultResponseMode,
    pub response_delay_ms: u64,
}

/// The group of a row that gives none.
pub const DEFAULT_GROUP: u8 = 1;

/// The quality of a row that gives none.
pub fn default_quality() -> (result: String)
    ensures
        result@ == "good"@,
{
    "good".to_owned()
}

/// The range and step that a row has by default.
pub open spec fn collect_defaults(
    kind: CollectPointKind,
    min: SampleView,
    max: SampleView,
    step: Real,
) -> bool {
    match kind {
        CollectPointKind::SinglePoint | CollectPointKind::DoublePoint => {
            min == whole_sample(0) && max == whole_sample(1) && step == whole_real(1)
        },
        CollectPointKind::Normalized | CollectPointKind::NormalizedNoQuality => {
            min == whole_sample(-32768) && max == whole_sample(32767) && step == whole_real(1)
        },
        CollectPointKind::Float => {
            min == whole_sample(-1_000_000) && max == whole_sample(1_000_000) && step == half()
        },
        CollectPointKind::Counter => {
            min == whole_sample(i32::MIN as int) && max == whole_sample(i32::MAX as int) && step
                == whole_real(1)
        },
    }
}

/// One half.
pub open spec fn half() -> Real {
    Real { double: 0x3FE0_0000_0000_0000, single: 0x3F00_0000 }
}

fn defaults_for_collect(kind: CollectPointKind) -> (result: (Sample, Sample, Real))
    ensures
        collect_defaults(kind, result.0@, result.1@, result.2),
{
    match kind {
        CollectPointKind::SinglePoint | CollectPointKind::DoublePoint => (
            Sample::from_integer(0),
            Sample::from_integer(1),
            Real::from_integer(1),
        ),
        CollectPointKind::Normalized | CollectPointKind::NormalizedNoQuality => (
            Sample::from_integer(-32768),
            Sample::from_integer(32767),
            Real::from_integer(1),
        ),
        CollectPointKind::Float => (
            Sample::from_integer(-1_000_000),
            Sample::from_integer(1_000_000),
            Real { double: 0x3FE0_0000_0000_0000, single: 0x3F00_0000 },
        ),
        CollectPointKind::Counter => (
            Sample::from_integer(i32::MIN),
            Sample::from_integer(i32::MAX),
            Real::from_integer(1),
        ),
    }
}

/// The first of the four fields that is not an integer between the bounds.
pub open spec fn field_off_range(
    initial: Real,
    min: Real,
    max: Real,
    step: Real,
    low: int,
    high: int,
) -> Option<Seq<char>> {
    if !initial.integer_within(low, high) {
        Some("initial"@)
    } else if !min.integer_within(low, high) {
        Some("min"@)
    } else if !max.integer_within(low, high) {
        Some("max"@)
    } else if !step.integer_within(low, high) {
        Some("step"@)
    } else {
        None
    }
}

/// Why the values of a row are refused, if they are.
pub open spec fn range_refusal(
    label: Seq<char>,
    kind: CollectPointKind,
    initial: Real,
    min: Real,
    max: Real,
    step: Real,
) -> Option<Seq<char>> {
    if !initial.finite() || !min.finite() || !max.finite() || !step.finite() {
        Some(label + " 的 initial/min/max/step 必须是有限数字"@)
    } else if !(min.value() <= max.value()) || !(min.value() <= initial.value() <= max.value())
        || step.value() <= 0 {
        Some(label + " 需要满足 min <= initial <= max 且 step > 0"@)
    } else {
        match kind {
            CollectPointKind::SinglePoint | CollectPointKind::DoublePoint => if initial
                .equals_integer(0) || initial.equals_integer(1) {
                None
            } else {
                Some(label + " 的离散初值只能为 0 或 1"@)
            },
            CollectPointKind::Normalized | CollectPointKind::NormalizedNoQuality =>
                match field_off_range(initial, min, max, step, -32768, 32767) {
                Some(field) => Some(label + " 的 "@ + field + " 必须是 i16 范围整数"@),
                None => None,
            },
            CollectPointKind::Counter => match field_off_range(
                initial,
                min,
                max,
                step,
                i32::MIN as int,
                i32::MAX as int,
            ) {
                Some(field) => Some(label + " 的 "@ + field + " 必须是 i32 范围整数"@),
                None => None,
            },
            CollectPointKind::Float => None,
        }
    }
}

fn off_range_field(initial: Real, min: Real, max: Real, step: Real, low: i64, high: i64) -> (result:
    Option<&'static str>)
    requires
        -0x1_0000_0000 < low,
        high < 0x1_0000_0000,
    ensures
        match result {
            Some(field) => field_off_range(initial, min, max, step, low as int, high as int)
                == Some(field@),
            None => field_off_range(initial, min, max, step, low as int, high as int) is None,
        },
{
    if !initial.is_integer_within(low, high) {
        Some("initial")
    } else if !min.is_integer_within(low, high) {
        Some("min")
    } else if !max.is_integer_within(low, high) {
        Some("max")
    } else if !step.is_integer_within(low, high) {
        Some("step")
    } else {
        None
    }
}

pub fn validate_collect_range(
    label: &str,
    kind: CollectPointKind,
    initial: Real,
    min: Real,
    max: Real,
    step: Real,
) -> (result: Result<(), String>)
    ensures
        refusal_of(result) == range_refusal(label@, kind, initial, min, max, step),
{
    if !initial.is_finite() || !min.is_finite() || !max.is_finite() || !step.is_finite() {
        return Err(cat(label.to_owned(), " 的 initial/min/max/step 必须是有限数字"));
    }
    let zero = Real { double: 0, single: 0 };
    assert(zero.finite());
    assert(double_value(0) == 0);
    if !min.at_most(max) || !min.at_most(initial) || !initial.at_most(max) || step.at_most(zero) {
        return Err(cat(label.to_owned(), " 需要满足 min <= initial <= max 且 step > 0"));
    }
    match kind {
        CollectPointKind::SinglePoint | CollectPointKind::DoublePoint => {
            if !initial.is_integer(0) && !initial.is_integer(1) {
                return Err(cat(label.to_owned(), " 的离散初值只能为 0 或 1"));
            }
        },
        CollectPointKind::Normalized | CollectPointKind::NormalizedNoQuality => {
            if let Some(field) = off_range_field(initial, min, max, step, -32768, 32767) {
                let text = cat(cat(label.to_owned(), " 的 "), field);
                return Err(cat(text, " 必须是 i16 范围整数"));
            }
        },
        CollectPointKind::Counter => {
            if let Some(field) = off_range_field(
                initial,
                min,
                max,
                step,
                i32::MIN as i64,
                i32::MAX as i64,
            ) {
                let text = cat(cat(label.to_owned(), " 的 "), field);
                return Err(cat(text, " 必须是 i32 范围整数"));
            }
        },
        CollectPointKind::Float => {},
    }
    Ok(())
}

/// The command that a control target answers to where its row names none.
pub open spec fn inferred_control(kind: CollectPointKind, purpose: PointPurpose) -> Option<
    ControlKind,
> {
    if !purpose.control() {
        None
    } else {
        match kind {
            CollectPointKind::SinglePoint => Some(ControlKind::Single),
            CollectPointKind::DoublePoint => Some(ControlKind::Double),
            CollectPointKind::Float => Some(ControlKind::Setpoint),
            CollectPointKind::Normalized => Some(ControlKind::Regulating),
            CollectPointKind::NormalizedNoQuality | CollectPointKind::Counter => None,
        }
    }
}

fn infer_control(kind: CollectPointKind, purpose: PointPurpose) -> (result: Option<ControlKind>)
    ensures
        result == inferred_control(kind, purpose),
{
    if !purpose.includes_control() {
        return None;
    }
    match kind {
        CollectPointKind::SinglePoint => Some(ControlKind::Single),
        CollectPointKind::DoublePoint => Some(ControlKind::Double),
        CollectPointKind::Float => Some(ControlKind::Setpoint),
        CollectPointKind::Normalized => Some(ControlKind::Regulating),
        CollectPointKind::NormalizedNoQuality | CollectPointKind::Counter => None,
    }
}

pub open spec fn name_refusal(label: Seq<char>, name: Seq<char>, ioa: u32) -> Option<Seq<char>> {
    if blank(name) {
        Some(label + " 的 name 不能为空"@)
    } else if ioa > 0xFF_FFFF {
        Some(label + " 的 IOA="@ + decimal(ioa as nat) + " 超出三字节范围"@)
    } else {
        None
    }
}

fn validate_name_ioa(label: &str, name: &str, ioa: u32) -> (result: Result<(), String>)
    ensures
        refusal_of(result) == name_refusal(label@, name@, ioa),
{
    if is_blank(name) {
        return Err(cat(label.to_owned(), " 的 name 不能为空"));
    }
    if ioa > 0xFF_FFFF {
        let text = cat_number(cat(label.to_owned(), " 的 IOA="), ioa as u64);
        return Err(cat(text, " 超出三字节范围"));
    }
    Ok(())
}

pub open spec fn row_label(prefix: Seq<char>, index: int, name: Seq<char>) -> Seq<char> {
    prefix + decimal((index + 1) as nat) + " ("@ + name + ")"@
}

fn label_row(prefix: &str, index: usize, name: &str) -> (result: String)
    ensures
        result@ == row_label(prefix@, index as int, name@),
{
    let text = crate::text::cat_wide(prefix.to_owned(), index as u128 + 1);
    cat(cat(cat(text, " ("), name), ")")
}

/// A quality that a point can have.
pub open spec fn known_quality(quality: Seq<char>) -> bool {
    quality == "good"@ || quality == "invalid"@ || quality == "blocked"@ || quality
        == "substituted"@
}

fn is_known_quality(quality: &str) -> (result: bool)
    ensures
        result == known_quality(quality@),
{
    same_text(quality, "good") || same_text(quality, "invalid") || same_text(quality, "blocked")
        || same_text(quality, "substituted")
}

pub open spec fn row_control(row: CollectPointRow) -> Option<ControlKind> {
    match row.control {
        Some(kind) => Some(kind),
        None => inferred_control(row.kind, row.purpose),
    }
}

pub open spec fn cleaned_quality(quality: Seq<char>) -> Seq<char> {
    lowered(trimmed(quality))
}

/// The row has the type and address of an earlier one.
pub open spec fn repeats_collect_row(rows: Seq<CollectPointRow>, index: int) -> bool {
    exists|i: int|
        0 <= i < index && (#[trigger] rows[i]).kind == rows[index].kind && rows[i].ioa
            == rows[index].ioa
}

/// The row is a control target with the address of an earlier one.
pub open spec fn repeats_control_target(rows: Seq<CollectPointRow>, index: int) -> bool {
    rows[index].purpose.control() && exists|i: int|
        0 <= i < index && (#[trigger] rows[i]).purpose.control() && rows[i].ioa == rows[index].ioa
}

/// Why a row is refused, if it is, given the range and step that it has.
pub open spec fn collect_row_refusal(
    rows: Seq<CollectPointRow>,
    index: int,
    min: Real,
    max: Real,
    step: Real,
) -> Option<Seq<char>> {
    let row = rows[index];
    let label = row_label("采集点 #"@, index, row.name@);
    let control = row_control(row);
    let quality = cleaned_quality(row.quality@);
    if name_refusal(label, row.name@, row.ioa) is Some {
        name_refusal(label, row.name@, row.ioa)
    } else if !(1 <= row.group <= 16) {
        Some(label + " 的 group 必须在 1..=16"@)
    } else if row.kind is Counter && row.group > 4 {
        Some(label + " 的电度 group 必须在 1..=4"@)
    } else if repeats_collect_row(rows, index) {
        Some(label + " 与已有点重复 type/IOA"@)
    } else if range_refusal(label, row.kind, row.initial.value, min, max, step) is Some {
        range_refusal(label, row.kind, row.initial.value, min, max, step)
    } else if control is Some && !row.purpose.control() {
        Some(label + " 配置了 control，但 purpose 不包含控制目标"@)
    } else if row.purpose.control() && control is None {
        Some(label + " 是控制目标，但无法从 type 推断 control 类型"@)
    } else if repeats_control_target(rows, index) {
        Some("控制目标 IOA="@ + decimal(row.ioa as nat) + " 必须唯一"@)
    } else if !known_quality(quality) {
        Some(
            label + " 的 quality="@ + debug_rendering(quality)
                + " 不支持；可用 good/invalid/blocked/substituted"@,
        )
    } else {
        None
    }
}

/// The point that a row becomes.
pub open spec fn row_becomes(row: CollectPointRow, point: CollectPointView) -> bool {
    &&& point == (CollectPointView {
        name: row.name@,
        ioa: row.ioa,
        kind: row.kind,
        purpose: row.purpose,
        control: row_control(row),
        group: row.group,
        initial: row.initial@,
        min: point.min,
        max: point.max,
        step: point.step,
        soe: row.soe,
        quality: cleaned_quality(row.quality@),
        addressing: row.addressing,
        response: row.response,
        response_delay_ms: row.response_delay_ms,
    })
    &&& row_range(row, point.min, point.max, point.step)
}

/// The range and step of a row: its own, or the ones of its kind.
pub open spec fn row_range(
    row: CollectPointRow,
    min: SampleView,
    max: SampleView,
    step: Real,
) -> bool {
    exists|low: SampleView, high: SampleView, usual: Real| #[trigger]
        collect_defaults(row.kind, low, high, usual) && min == (match row.min {
            Some(own) => own@,
            None => low,
        }) && max == (match row.max {
            Some(own) => own@,
            None => high,
        }) && step == (match row.step {
            Some(own) => own,
            None => usual,
        })
}

/// A row is accepted as a point.
pub open spec fn collect_row_accepted(
    rows: Seq<CollectPointRow>,
    index: int,
    point: CollectPointView,
) -> bool {
    row_becomes(rows[index], point) && collect_row_refusal(
        rows,
        index,
        point.min.value,
        point.max.value,
        point.step,
    ) is None
}

/// A row is accepted as some point.
pub open spec fn collect_row_fits(rows: Seq<CollectPointRow>, index: int) -> bool {
    exists|point: CollectPointView| #[trigger] collect_row_accepted(rows, index, point)
}

/// A row is refused with a text.
pub open spec fn collect_row_refused(
    rows: Seq<CollectPointRow>,
    index: int,
    text: Seq<char>,
) -> bool {
    exists|min: SampleView, max: SampleView, step: Real| #[trigger]
        row_range(rows[index], min, max, step) && collect_row_refusal(
            rows,
            index,
            min.value,
            max.value,
            step,
        ) == Some(text)
}

fn is_repeated_collect_row(rows: &Vec<CollectPointRow>, index: usize) -> (result: bool)
    requires
        index < rows@.len(),
    ensures
        result == repeats_collect_row(rows@, index as int),
{
    let mut i: usize = 0;
    while i < index
        invariant
            i <= index < rows@.len(),
            forall|j: int|
                0 <= j < i ==> !((#[trigger] rows@[j]).kind == rows@[index as int].kind
                    && rows@[j].ioa == rows@[index as int].ioa),
        decreases index - i,
    {
        if rows[i].kind == rows[index].kind && rows[i].ioa == rows[index].ioa {
            return true;
        }
        i += 1;
    }
    false
}

fn is_repeated_control_target(rows: &Vec<CollectPointRow>, index: usize) -> (result: bool)
    requires
        index < rows@.len(),
    ensures
        result == repeats_control_target(rows@, index as int),
{
    if !rows[index].purpose.includes_control() {
        return false;
    }
    let mut i: usize = 0;
    while i < index
        invariant
            i <= index < rows@.len(),
            rows@[index as int].purpose.control(),
            forall|j: int|
                0 <= j < i ==> !((#[trigger] rows@[j]).purpose.control() && rows@[j].ioa
                    == rows@[index as int].ioa),
        decreases index - i,
    {
        if rows[i].purpose.includes_control() && rows[i].ioa == rows[index].ioa {
            return true;
        }
        i += 1;
    }
    false
}

fn or_default(own: &Option<Sample>, usual: Sample) -> (result: Sample)
    ensures
        result@ == (match *own {
            Some(own) => own@,
            None => usual@,
        }),
{
    match own {
        Some(own) => own.copy(),
        None => usual,
    }
}

fn load_collect_point(rows: &Vec<CollectPointRow>, index: usize) -> (result: Result<
    CollectPointConfig,
    String,
>)
    requires
        index < rows@.len(),
    ensures
        match result {
            Ok(point) => collect_row_accepted(rows@, index as int, point@),
            Err(text) => collect_row_refused(rows@, index as int, text@),
        },
{
    let row = &rows[index];
    let label = label_row("采集点 #", index, row.name.as_str());
    let (usual_min, usual_max, usual_step) = defaults_for_collect(row.kind);
    let ghost usual = (usual_min@, usual_max@, usual_step);
    let min = or_default(&row.min, usual_min);
    let max = or_default(&row.max, usual_max);
    let step = match row.step {
        Some(own) => own,
        None => usual_step,
    };
    assert(collect_defaults(row.kind, usual.0, usual.1, usual.2));
    assert(row_range(rows@[index as int], min@, max@, step));
    if let Err(text) = validate_name_ioa(label.as_str(), row.name.as_str(), row.ioa) {
        return Err(text);
    }
    if !(1 <= row.group && row.group <= 16) {
        return Err(cat(label, " 的 group 必须在 1..=16"));
    }
    if row.kind == CollectPointKind::Counter && row.group > 4 {
        return Err(cat(label, " 的电度 group 必须在 1..=4"));
    }
    if is_repeated_collect_row(rows, index) {
        return Err(cat(label, " 与已有点重复 type/IOA"));
    }
    if let Err(text) = validate_collect_range(
        label.as_str(),
        row.kind,
        row.initial.value,
        min.value,
        max.value,
        step,
    ) {
        return Err(text);
    }
    let control = match row.control {
        Some(kind) => Some(kind),
        None => infer_control(row.kind, row.purpose),
    };
    if control.is_some() && !row.purpose.includes_control() {
        return Err(cat(label, " 配置了 control，但 purpose 不包含控制目标"));
    }
    if row.purpose.includes_control() && control.is_none() {
        return Err(cat(label, " 是控制目标，但无法从 type 推断 control 类型"));
    }
    if is_repeated_control_target(rows, index) {
        let text = cat_number("控制目标 IOA=".to_owned(), row.ioa as u64);
        return Err(cat(text, " 必须唯一"));
    }
    let quality = ascii_lowercase(trim(row.quality.as_str()));
    if !is_known_quality(quality.as_str()) {
        let printed = debug_text(quality.as_str());
        let text = cat(cat(label, " 的 quality="), printed.as_str());
        return Err(cat(text, " 不支持；可用 good/invalid/blocked/substituted"));
    }
    Ok(
        CollectPointConfig {
            name: row.name.clone(),
            ioa: row.ioa,
            kind: row.kind,
            purpose: row.purpose,
            control,
            group: row.group,
            initial: row.initial.copy(),
            min,
            max,
            step,
            soe: row.soe,
            quality,
            addressing: row.addressing,
            response: row.response,
            response_delay_ms: row.response_delay_ms,
        },
    )
}

/// The row at a position is the first that is refused.
pub open spec fn first_collect_refusal(
    rows: Seq<CollectPointRow>,
    index: int,
    text: Seq<char>,
) -> bool {
    &&& 0 <= index < rows.len()
    &&& collect_row_refused(rows, index, text)
    &&& forall|i: int| 0 <= i < index ==> #[trigger] collect_row_fits(rows, i)
}

/// What the rows of a table become: all of them points, or the text of the
/// first one that is refused.
pub open spec fn collect_rows_become(
    rows: Seq<CollectPointRow>,
    outcome: Result<Seq<CollectPointView>, Seq<char>>,
) -> bool {
    match outcome {
        Ok(points) => rows.len() > 0 && points.len() == rows.len() && forall|i: int|
            0 <= i < rows.len() ==> collect_row_accepted(rows, i, #[trigger] points[i]),
        Err(text) => if rows.len() == 0 {
            text == "采集点配置至少需要一个 [[points]]"@
        } else {
            exists|index: int| #[trigger] first_collect_refusal(rows, index, text)
        },
    }
}

pub open spec fn collect_points_view(result: Result<Vec<CollectPointConfig>, String>) -> Result<
    Seq<CollectPointView>,
    Seq<char>,
> {
    match result {
        Ok(points) => Ok(collect_views(points@)),
        Err(text) => Err(text@),
    }
}

/// Turns the rows of a table into the points of the collecting side.
pub fn load_collect_points(rows: &Vec<CollectPointRow>) -> (result: Result<
    Vec<CollectPointConfig>,
    String,
>)
    ensures
        collect_rows_become(rows@, collect_points_view(result)),
{
    if rows.len() == 0 {
        return Err("采集点配置至少需要一个 [[points]]".to_owned());
    }
    let mut points: Vec<CollectPointConfig> = Vec::new();
    let mut index: usize = 0;
    while index < rows.len()
        invariant
            index <= rows@.len(),
            points@.len() == index,
            rows@.len() > 0,
            forall|i: int|
                0 <= i < index ==> collect_row_accepted(rows@, i, (#[trigger] points@[i])@),
        decreases rows.len() - index,
    {
        match load_collect_point(rows, index) {
            Ok(point) => {
                points.push(point);
            },
            Err(text) => {
                proof {
                    assert(collect_row_refused(rows@, index as int, text@));
                    assert forall|i: int| 0 <= i < index implies #[trigger] collect_row_fits(
                        rows@,
                        i,
                    ) by {
                        assert(collect_row_accepted(rows@, i, points@[i]@));
                    }
                    let outcome: Result<Seq<CollectPointView>, Seq<char>> = Err(text@);
                    assert(first_collect_refusal(rows@, index as int, outcome->Err_0));
                    assert(collect_rows_become(rows@, outcome));
                }
                return Err(text);
            },
        }
        index += 1;
    }
    Ok(points)
}

/// Points that the collecting side can work with.
pub open spec fn sound_point(point: CollectPointView) -> bool {
    &&& !blank(point.name)
    &&& point.ioa <= 0xFF_FFFF
    &&& 1 <= point.group <= 16
    &&& point.kind is Counter ==> point.group <= 4
    &&& point.initial.value.finite() && point.min.value.finite() && point.max.value.finite()
        && point.step.finite()
    &&& point.min.value.value() <= point.initial.value.value() <= point.max.value.value()
    &&& point.step.value() > 0
    &&& (point.control is Some) == point.purpose.control()
    &&& known_quality(point.quality)
}

/// A table that is accepted holds sound points; no two have both type and
/// address in common, and no two control targets have one address.
pub proof fn law_accepted_points_are_sound(
    rows: Seq<CollectPointRow>,
    points: Seq<CollectPointView>,
    i: int,
    j: int,
)
    requires
        collect_rows_become(rows, Ok(points)),
        0 <= i < j < points.len(),
    ensures
        sound_point(points[i]),
        sound_point(points[j]),
        points[i].kind != points[j].kind || points[i].ioa != points[j].ioa,
        points[i].purpose.control() && points[j].purpose.control() ==> points[i].ioa
            != points[j].ioa,
{
    assert(collect_row_accepted(rows, i, points[i]));
    assert(collect_row_accepted(rows, j, points[j]));
    assert(rows[i].kind == points[i].kind && rows[i].ioa == points[i].ioa);
    assert(!repeats_collect_row(rows, j));
    assert(!repeats_control_target(rows, j));
}

// ---------------------------------------------------------------------------
// Points of the dispatching side.
/// Why a default value is refused for a kind, if it is.
pub open spec fn default_refusal(label: Seq<char>, kind: DispatchPointKind, value: Real) -> Option<
    Seq<char>,
> {
    match kind {
        DispatchPointKind::SingleControl | DispatchPointKind::DoubleControl => if value
            .equals_integer(0) || value.equals_integer(1) {
            None
        } else {
            Some(label + " 的离散控制默认值只能为 0 或 1"@)
        },
        DispatchPointKind::RegulatingStep => if value.equals_integer(-1) || value.equals_integer(
            1,
        ) {
            None
        } else {
            Some(label + " 的升降默认值只能为 -1 或 1"@)
        },
        DispatchPointKind::NormalizedSetpoint | DispatchPointKind::ScaledSetpoint => if value
            .integer_within(-32768, 32767) {
            None
        } else {
            Some(label + " 的设点默认值必须是 i16 范围整数"@)
        },
        _ => None,
    }
}

pub fn validate_dispatch_default(label: &str, kind: DispatchPointKind, value: Real) -> (result:
    Result<(), String>)
    ensures
        refusal_of(result) == default_refusal(label@, kind, value),
{
    match kind {
        DispatchPointKind::SingleControl | DispatchPointKind::DoubleControl => {
            if !value.is_integer(0) && !value.is_integer(1) {
                return Err(cat(label.to_owned(), " 的离散控制默认值只能为 0 或 1"));
            }
        },
        DispatchPointKind::RegulatingStep => {
            if !value.is_integer(-1) && !value.is_integer(1) {
                return Err(cat(label.to_owned(), " 的升降默认值只能为 -1 或 1"));
            }
        },
        DispatchPointKind::NormalizedSetpoint | DispatchPointKind::ScaledSetpoint => {
            if !value.is_integer_within(-32768, 32767) {
                return Err(cat(label.to_owned(), " 的设点默认值必须是 i16 范围整数"));
            }
        },
        _ => {},
    }
    Ok(())
}

/// The row has the purpose, type and address of an earlier one.
pub open spec fn repeats_dispatch_row(rows: Seq<DispatchPointConfig>, index: int) -> bool {
    exists|i: int|
        0 <= i < index && (#[trigger] rows[i]).purpose == rows[index].purpose && rows[i].kind
            == rows[index].kind && rows[i].ioa == rows[index].ioa
}

/// `left < right`, false where one is not a number.
pub open spec fn below(left: Real, right: Real) -> bool {
    double_at_most(left.double, right.double) && !double_at_most(right.double, left.double)
}

fn is_below(left: Real, right: Real) -> (result: bool)
    ensures
        result == below(left, right),
{
    left.at_most(right) && !right.at_most(left)
}

/// A bound of the row is no number, or the bounds cross.
pub open spec fn misplaced_bounds(row: DispatchPointConfig) -> bool {
    ||| row.min is Some && !row.min->0.value.finite()
    ||| row.max is Some && !row.max->0.value.finite()
    ||| row.min is Some && row.max is Some && below(row.max->0.value, row.min->0.value)
}

fn has_misplaced_bounds(row: &DispatchPointConfig) -> (result: bool)
    ensures
        result == misplaced_bounds(*row),
{
    match (&row.min, &row.max) {
        (Some(min), Some(max)) => !min.value.is_finite() || !max.value.is_finite() || is_below(
            max.value,
            min.value,
        ),
        (Some(min), None) => !min.value.is_finite(),
        (None, Some(max)) => !max.value.is_finite(),
        (None, None) => false,
    }
}

/// Why a row is refused, if it is.
pub open spec fn dispatch_row_refusal(rows: Seq<DispatchPointConfig>, index: int) -> Option<
    Seq<char>,
> {
    let row = rows[index];
    let label = row_label("调度点 #"@, index, row.name@);
    if name_refusal(label, row.name@, row.ioa) is Some {
        name_refusal(label, row.name@, row.ioa)
    } else if repeats_dispatch_row(rows, index) {
        Some(label + " 与已有点重复 purpose/type/IOA"@)
    } else if row.purpose is Command && !row.kind.command() {
        Some(label + " purpose=command 需要使用控制/遥调类型"@)
    } else if row.purpose !is Command && row.kind.command() {
        Some(label + " 预期实时值不能使用命令类型"@)
    } else if misplaced_bounds(row) {
        Some(label + " 的 min/max 非法"@)
    } else if row.default_value is Some && !row.default_value->0.value.finite() {
        Some(label + " 的 default_value 必须是有限数字"@)
    } else if row.default_value is Some && ((row.min is Some && below(
        row.default_value->0.value,
        row.min->0.value,
    )) || (row.max is Some && below(row.max->0.value, row.default_value->0.value))) {
        Some(label + " 的 default_value 超出 min/max"@)
    } else if row.default_value is Some {
        default_refusal(label, row.kind, row.default_value->0.value)
    } else {
        None
    }
}

fn is_repeated_dispatch_row(rows: &Vec<DispatchPointConfig>, index: usize) -> (result: bool)
    requires
        index < rows@.len(),
    ensures
        result == repeats_dispatch_row(rows@, index as int),
{
    let mut i: usize = 0;
    while i < index
        invariant
            i <= index < rows@.len(),
            forall|j: int|
                0 <= j < i ==> !((#[trigger] rows@[j]).purpose == rows@[index as int].purpose
                    && rows@[j].kind == rows@[index as int].kind && rows@[j].ioa
                    == rows@[index as int].ioa),
        decreases index - i,
    {
        if rows[i].purpose == rows[index].purpose && rows[i].kind == rows[index].kind
            && rows[i].ioa == rows[index].ioa {
            return true;
        }
        i += 1;
    }
    false
}

fn check_dispatch_row(rows: &Vec<DispatchPointConfig>, index: usize) -> (result: Result<(), String>)
    requires
        index < rows@.len(),
    ensures
        refusal_of(result) == dispatch_row_refusal(rows@, index as int),
{
    let row = &rows[index];
    let label = label_row("调度点 #", index, row.name.as_str());
    if let Err(text) = validate_name_ioa(label.as_str(), row.name.as_str(), row.ioa) {
        return Err(text);
    }
    if is_repeated_dispatch_row(rows, index) {
        return Err(cat(label, " 与已有点重复 purpose/type/IOA"));
    }
    if row.purpose == DispatchPointPurpose::Command && !row.kind.is_command() {
        return Err(cat(label, " purpose=command 需要使用控制/遥调类型"));
    }
    if row.purpose != DispatchPointPurpose::Command && row.kind.is_command() {
        return Err(cat(label, " 预期实时值不能使用命令类型"));
    }
    if has_misplaced_bounds(row) {
        return Err(cat(label, " 的 min/max 非法"));
    }
    if let Some(default) = &row.default_value {
        if !default.value.is_finite() {
            return Err(cat(label, " 的 default_value 必须是有限数字"));
        }
        let too_low = match &row.min {
            Some(min) => is_below(default.value, min.value),
            None => false,
        };
        let too_high = match &row.max {
            Some(max) => is_below(max.value, default.value),
            None => false,
        };
        if too_low || too_high {
            return Err(cat(label, " 的 default_value 超出 min/max"));
        }
        return validate_dispatch_default(label.as_str(), row.kind, default.value);
    }
    Ok(())
}

/// The row at a position is the first that is refused.
pub open spec fn first_dispatch_refusal(
    rows: Seq<DispatchPointConfig>,
    index: int,
    text: Seq<char>,
) -> bool {
    &&& 0 <= index < rows.len()
    &&& dispatch_row_refusal(rows, index) == Some(text)
    &&& forall|i: int| 0 <= i < index ==> #[trigger] dispatch_row_refusal(rows, i) is None
}

/// Checks the rows of the dispatching side's table.
pub fn load_dispatch_points(rows: Vec<DispatchPointConfig>) -> (result: Result<
    Vec<DispatchPointConfig>,
    String,
>)
    ensures
        match result {
            Ok(points) => points@ == rows@ && forall|i: int|
                0 <= i < rows@.len() ==> #[trigger] dispatch_row_refusal(rows@, i) is None,
            Err(text) => exists|index: int| #[trigger]
                first_dispatch_refusal(rows@, index, text@),
        },
{
    let mut index: usize = 0;
    while index < rows.len()
        invariant
            index <= rows@.len(),
            forall|i: int| 0 <= i < index ==> #[trigger] dispatch_row_refusal(rows@, i) is None,
        decreases rows.len() - index,
    {
        if let Err(text) = check_dispatch_row(&rows, index) {
            let refused: Result<Vec<DispatchPointConfig>, String> = Err(text);
            assert(first_dispatch_refusal(rows@, index as int, refused->Err_0@));
            return refused;
        }
        index += 1;
    }
    Ok(rows)
}

/// In a table that is accepted, commands are of a command kind and expected
/// values are not, bounds and defaults are finite, and no two rows have purpose,
/// type and address in common.
pub proof fn law_accepted_dispatch_points(rows: Seq<DispatchPointConfig>, i: int, j: int)
    requires
        forall|k: int| 0 <= k < rows.len() ==> #[trigger] dispatch_row_refusal(rows, k) is None,
        0 <= i < j < rows.len(),
    ensures
        rows[i].purpose is Command == rows[i].kind.command(),
        rows[i].ioa <= 0xFF_FFFF,
        !blank(rows[i].name@),
        rows[i].min matches Some(min) ==> min.value.finite(),
        rows[i].max matches Some(max) ==> max.value.finite(),
        rows[i].default_value matches Some(value) ==> value.value.finite(),
        rows[i].purpose != rows[j].purpose || rows[i].kind != rows[j].kind || rows[i].ioa
            != rows[j].ioa,
{
    assert(dispatch_row_refusal(rows, i) is None);
    assert(dispatch_row_refusal(rows, j) is None);
    assert(!repeats_dispatch_row(rows, j));
}

// ---------------------------------------------------------------------------
// Start-up.
/// The program takes no arguments: the count of arguments, with the name of the
/// program, must be one.
pub fn validate_argument_count(count: usize) -> (result: Result<(), String>)
    ensures
        refusal_of(result) == (if count == 1 {
            None
        } else {
            Some("本程序不接受命令行参数；请只修改 config/agcavc104test.toml 后直接启动"@)
        }),
{
    if count == 1 {
        Ok(())
    } else {
        Err("本程序不接受命令行参数；请只修改 config/agcavc104test.toml 后直接启动".to_owned())
    }
}

// ---------------------------------------------------------------------------
// Laws of what is accepted.
/// Settings are accepted exactly where the timers are told and in their order,
/// the window is open and acknowledged in time, the stations have addresses of
/// their own, the hosts, ports and paths are given, and nothing that counts is
/// zero.
pub proof fn law_settings_are_accepted(settings: MainSettings)
    ensures
        settings_refusal(settings) is None <==> {
            let protocol = settings.protocol;
            &&& 0 < protocol.t0_ms
            &&& 0 < protocol.t2_ms
            &&& protocol.t2_ms < protocol.t1_ms
            &&& protocol.t1_ms < protocol.t3_ms
            &&& 1 <= protocol.w
            &&& 3 * protocol.w <= 2 * protocol.k
            &&& !blank(settings.collect.bind_host@)
            &&& !blank(settings.dispatch.target_host@)
            &&& 1 <= settings.collect.bind_port
            &&& 1 <= settings.dispatch.target_port
            &&& 1 <= settings.collect.common_address <= 65534
            &&& 1 <= settings.dispatch.common_address <= 65534
            &&& 1 <= settings.dispatch.reconnect_ms
            &&& 1 <= settings.ui.tick_ms
            &&& 1 <= settings.ui.log_capacity
            &&& 1 <= settings.ui.command_capacity
            &&& 1 <= settings.ui.event_capacity
            &&& !blank(settings.points.collect@)
            &&& !blank(settings.points.dispatch@)
        },
{
    let protocol = settings.protocol;
    assert(protocol.w > protocol.k * 2 / 3 <==> 3 * protocol.w > 2 * protocol.k);
}

/// The range is one for the kind: four finite numbers, the first value between
/// the bounds and the step above zero; a state starts at zero or one, and the
/// numbers of an integer kind are integers of its size.
pub open spec fn ranges_well(
    kind: CollectPointKind,
    initial: Real,
    min: Real,
    max: Real,
    step: Real,
) -> bool {
    &&& initial.finite() && min.finite() && max.finite() && step.finite()
    &&& min.value() <= initial.value()
    &&& initial.value() <= max.value()
    &&& 0 < step.value()
    &&& match kind {
        CollectPointKind::SinglePoint | CollectPointKind::DoublePoint => initial.equals_integer(0)
            || initial.equals_integer(1),
        CollectPointKind::Normalized | CollectPointKind::NormalizedNoQuality => {
            &&& initial.integer_within(-0x8000, 0x7FFF)
            &&& min.integer_within(-0x8000, 0x7FFF)
            &&& max.integer_within(-0x8000, 0x7FFF)
            &&& step.integer_within(-0x8000, 0x7FFF)
        },
        CollectPointKind::Counter => {
            &&& initial.integer_within(-0x8000_0000, 0x7FFF_FFFF)
            &&& min.integer_within(-0x8000_0000, 0x7FFF_FFFF)
            &&& max.integer_within(-0x8000_0000, 0x7FFF_FFFF)
            &&& step.integer_within(-0x8000_0000, 0x7FFF_FFFF)
        },
        CollectPointKind::Float => true,
    }
}

/// The commands that operate the point are those the row names; without a name
/// they follow from the kind, where the point can be operated at all.
pub open spec fn is_operated_by(row: CollectPointRow, control: Option<ControlKind>) -> bool {
    if row.control is Some {
        control == row.control
    } else if row.purpose is Data {
        control is None
    } else {
        match row.kind {
            CollectPointKind::SinglePoint => control == Some(ControlKind::Single),
            CollectPointKind::DoublePoint => control == Some(ControlKind::Double),
            CollectPointKind::Float => control == Some(ControlKind::Setpoint),
            CollectPointKind::Normalized => control == Some(ControlKind::Regulating),
            CollectPointKind::NormalizedNoQuality | CollectPointKind::Counter => control is None,
        }
    }
}

/// The point is what the row says; a bound or step that the row leaves out is
/// the usual one of the kind.
pub open spec fn is_made_of(row: CollectPointRow, point: CollectPointView) -> bool {
    &&& point.name == row.name@
    &&& point.ioa == row.ioa
    &&& point.kind == row.kind
    &&& point.purpose == row.purpose
    &&& is_operated_by(row, point.control)
    &&& point.group == row.group
    &&& point.initial == row.initial@
    &&& point.soe == row.soe
    &&& point.quality == lowered(trimmed(row.quality@))
    &&& point.addressing == row.addressing
    &&& point.response == row.response
    &&& point.response_delay_ms == row.response_delay_ms
    &&& point.min == (match row.min {
        Some(own) => own@,
        None => whole_sample(
            match row.kind {
                CollectPointKind::SinglePoint | CollectPointKind::DoublePoint => 0,
                CollectPointKind::Normalized | CollectPointKind::NormalizedNoQuality => -0x8000,
                CollectPointKind::Float => -1_000_000,
                CollectPointKind::Counter => -0x8000_0000,
            },
        ),
    })
    &&& point.max == (match row.max {
        Some(own) => own@,
        None => whole_sample(
            match row.kind {
                CollectPointKind::SinglePoint | CollectPointKind::DoublePoint => 1,
                CollectPointKind::Normalized | CollectPointKind::NormalizedNoQuality => 0x7FFF,
                CollectPointKind::Float => 1_000_000,
                CollectPointKind::Counter => 0x7FFF_FFFF,
            },
        ),
    })
    &&& match row.step {
        Some(own) => point.step == own,
        None => if row.kind is Float {
            point.step.double == 0x3FE0_0000_0000_0000 && point.step.single == 0x3F00_0000
        } else {
            point.step == whole_real(1)
        },
    }
}

/// The point may stand in its place in the table: it has a name and an address
/// of three octets, a group from 1 to 16 or a counter one from 1 to 4, a range,
/// commands exactly where it is a target, and a known quality; no earlier point
/// has its kind and address, and no earlier target the address of a target.
pub open spec fn may_stand(
    rows: Seq<CollectPointRow>,
    index: int,
    point: CollectPointView,
) -> bool {
    &&& !blank(point.name)
    &&& point.ioa < 0x100_0000
    &&& 1 <= point.group
    &&& point.group <= 16
    &&& point.kind is Counter ==> point.group <= 4
    &&& ranges_well(point.kind, point.initial.value, point.min.value, point.max.value, point.step)
    &&& point.control is Some <==> point.purpose !is Data
    &&& point.quality == "good"@ || point.quality == "invalid"@ || point.quality == "blocked"@
        || point.quality == "substituted"@
    &&& forall|i: int|
        0 <= i < index ==> (#[trigger] rows[i]).kind != point.kind || rows[i].ioa != point.ioa
    &&& point.purpose !is Data ==> forall|i: int|
        0 <= i < index && (#[trigger] rows[i]).purpose !is Data ==> rows[i].ioa != point.ioa
}

proof fn lemma_made_of(row: CollectPointRow, point: CollectPointView)
    ensures
        row_becomes(row, point) <==> is_made_of(row, point),
{
    if row_becomes(row, point) {
        let (low, high, usual) = choose|low: SampleView, high: SampleView, usual: Real| #[trigger]
            collect_defaults(row.kind, low, high, usual) && point.min == (match row.min {
                Some(own) => own@,
                None => low,
            }) && point.max == (match row.max {
                Some(own) => own@,
                None => high,
            }) && point.step == (match row.step {
                Some(own) => own,
                None => usual,
            });
        assert(collect_defaults(row.kind, low, high, usual));
    }
    if is_made_of(row, point) {
        let low = match row.kind {
            CollectPointKind::SinglePoint | CollectPointKind::DoublePoint => whole_sample(0),
            CollectPointKind::Normalized
            | CollectPointKind::NormalizedNoQuality => whole_sample(-32768),
            CollectPointKind::Float => whole_sample(-1_000_000),
            CollectPointKind::Counter => whole_sample(i32::MIN as int),
        };
        let high = match row.kind {
            CollectPointKind::SinglePoint | CollectPointKind::DoublePoint => whole_sample(1),
            CollectPointKind::Normalized
            | CollectPointKind::NormalizedNoQuality => whole_sample(32767),
            CollectPointKind::Float => whole_sample(1_000_000),
            CollectPointKind::Counter => whole_sample(i32::MAX as int),
        };
        let usual = if row.kind is Float {
            half()
        } else {
            whole_real(1)
        };
        assert(collect_defaults(row.kind, low, high, usual));
    }
}

proof fn lemma_may_stand(rows: Seq<CollectPointRow>, index: int, point: CollectPointView)
    requires
        is_made_of(rows[index], point),
    ensures
        collect_row_refusal(
            rows,
            index,
            point.min.value,
            point.max.value,
            point.step,
        ) is None <==> may_stand(rows, index, point),
{
}

/// A table of the collecting side is accepted exactly where it has a row and
/// every row may stand in its place; the points are what the rows say.
pub proof fn law_collect_tables_are_accepted(
    rows: Seq<CollectPointRow>,
    outcome: Result<Seq<CollectPointView>, Seq<char>>,
)
    requires
        collect_rows_become(rows, outcome),
    ensures
        outcome matches Ok(points) ==> rows.len() > 0 && points.len() == rows.len() && forall|
            i: int,
        |
            0 <= i < rows.len() ==> is_made_of(rows[i], #[trigger] points[i]) && may_stand(
                rows,
                i,
                points[i],
            ),
        outcome is Err ==> rows.len() == 0 || exists|i: int, point: CollectPointView|
            0 <= i < rows.len() && is_made_of(rows[i], point) && !#[trigger] may_stand(
                rows,
                i,
                point,
            ),
{
    match outcome {
        Ok(points) => {
            assert forall|i: int| 0 <= i < rows.len() implies is_made_of(
                rows[i],
                #[trigger] points[i],
            ) && may_stand(rows, i, points[i]) by {
                assert(collect_row_accepted(rows, i, points[i]));
                lemma_made_of(rows[i], points[i]);
                lemma_may_stand(rows, i, points[i]);
            }
        },
        Err(text) => {
            if rows.len() > 0 {
                let index = choose|index: int| #[trigger] first_collect_refusal(rows, index, text);
                let row = rows[index];
                let (min, max, step) = choose|min: SampleView, max: SampleView, step: Real| #[trigger]
                    row_range(rows[index], min, max, step) && collect_row_refusal(
                        rows,
                        index,
                        min.value,
                        max.value,
                        step,
                    ) == Some(text);
                let point = CollectPointView {
                    name: row.name@,
                    ioa: row.ioa,
                    kind: row.kind,
                    purpose: row.purpose,
                    control: row_control(row),
                    group: row.group,
                    initial: row.initial@,
                    min,
                    max,
                    step,
                    soe: row.soe,
                    quality: cleaned_quality(row.quality@),
                    addressing: row.addressing,
                    response: row.response,
                    response_delay_ms: row.response_delay_ms,
                };
                lemma_made_of(row, point);
                lemma_may_stand(rows, index, point);
                assert(!may_stand(rows, index, point));
            }
        },
    }
}

/// The row may stand in its place in the table of the dispatching side: it has a
/// name and an address of three octets, a command has a kind of command and an
/// expected value has none, the bounds are numbers in order, a default is one
/// between them and one that its command can take, and no earlier row has its
/// purpose, kind and address.
pub open spec fn may_be_dispatched(rows: Seq<DispatchPointConfig>, index: int) -> bool {
    let row = rows[index];
    &&& !blank(row.name@)
    &&& row.ioa < 0x100_0000
    &&& row.purpose is Command <==> (row.kind is SingleControl || row.kind is DoubleControl
        || row.kind is RegulatingStep || row.kind is NormalizedSetpoint || row.kind
        is ScaledSetpoint || row.kind is FloatSetpoint)
    &&& row.min matches Some(min) ==> min.value.finite()
    &&& row.max matches Some(max) ==> max.value.finite()
    &&& row.min matches Some(min) ==> row.max matches Some(max) ==> min.value.value()
        <= max.value.value()
    &&& row.default_value matches Some(value) ==> {
        let given = value.value;
        &&& given.finite()
        &&& row.min matches Some(min) ==> min.value.value() <= given.value()
        &&& row.max matches Some(max) ==> given.value() <= max.value.value()
        &&& row.kind is SingleControl || row.kind is DoubleControl ==> given.equals_integer(0)
            || given.equals_integer(1)
        &&& row.kind is RegulatingStep ==> given.equals_integer(-1) || given.equals_integer(1)
        &&& row.kind is NormalizedSetpoint || row.kind is ScaledSetpoint ==> given.integer_within(
            -0x8000,
            0x7FFF,
        )
    }
    &&& forall|i: int|
        0 <= i < index ==> (#[trigger] rows[i]).purpose != row.purpose || rows[i].kind != row.kind
            || rows[i].ioa != row.ioa
}

/// A row of the dispatching side is accepted exactly where it may stand in its
/// place.
pub proof fn law_dispatch_tables_are_accepted(rows: Seq<DispatchPointConfig>, index: int)
    requires
        0 <= index < rows.len(),
    ensures
        dispatch_row_refusal(rows, index) is None <==> may_be_dispatched(rows, index),
{
    let row = rows[index];
    if let Some(min) = row.min {
        lemma_finite_is_a_number(min.value);
    }
    if let Some(max) = row.max {
        lemma_finite_is_a_number(max.value);
    }
    if let Some(value) = row.default_value {
        lemma_finite_is_a_number(value.value);
    }
}

proof fn lemma_finite_is_a_number(value: Real)
    ensures
        value.finite() ==> !crate::number::double_nan(value.double),
{
}

} // verus!
