//! The collecting side: it answers interrogations and commands for the points
//! that it simulates.

use crate::config::{endpoint, endpoint_text, CollectPointConfig, CollectSettings};
use crate::model::{
    CollectCommand, ConnectionPhase, ConnectionView, ControlKind, ControlPhase, DefaultResponseMode,
    Direction, EventView, FaultPolicy, LogCategory, Moment, RuntimeEvent, Severity, Side,
    UploadKind,
};
use crate::number::{Real, Sample, SampleView};
use crate::order::{lemma_sorting_views, order_of, sorted_by, stable_sort, Order};
use crate::protocol::asdu::{
    confirmation, confirmed, counter_interrogation_cause, counter_interrogation_cot,
    interrogated_group, interrogation_cause, interrogation_cot, make_asdu, qoi_group,
};
use crate::protocol::desk::{after_send_units, error_view, Desk, DeskState, OutputView};
use crate::protocol::element::{Dpi, Element, InformationObject, Rcs, SelectExecute, Spi, TypeId};
use crate::protocol::iec::{iec_type_name, type_mnemonic};
use crate::protocol::message::{
    Asdu, AsduView, Frame, FrameView, InformationObjects, ObjectsView, COT_ACTIVATION_CONFIRMATION,
    COT_ACTIVATION_TERMINATION, COT_INITIATED, COT_UNKNOWN_ASDU_ADDRESS, COT_UNKNOWN_CAUSE,
    COT_UNKNOWN_OBJECT_ADDRESS,
};
use crate::protocol::station::{
    after_set_value, control_outcome, control_target, general_units, is_about, is_first_of,
    is_operated, is_report_of, may_be_set, plain_units, position, reconfigured_point,
    refreshed_point, selected_count, shows_value, sound_points, sound_range, spontaneous_header,
    station_rows, unit_views, upload_units, ControlRequest, PointStateView, ReportHeader, Station,
};
use crate::protocol::wire::{
    after_frame, after_tick, saturated_sum, LinkConfig, LinkRole, LinkSession, LinkState,
};
use crate::text::{cat, cat_number, decimal};
use std::collections::VecDeque;
use vstd::prelude::*;

verus! {

pub const MAX_DEFERRED_ASDUS: usize = 256;

/// A command whose answer waits for its time.
#[derive(Debug, Clone)]
pub struct DelayedControl {
    pub due: u64,
    pub request: Asdu,
    pub ioa: u32,
    pub control_kind: ControlKind,
    pub desired: Sample,
    pub phase: ControlPhase,
}

#[verifier::ext_equal]
pub struct DelayedView {
    pub due: u64,
    pub request: AsduView,
    pub ioa: u32,
    pub control_kind: ControlKind,
    pub desired: SampleView,
    pub phase: ControlPhase,
}

impl View for DelayedControl {
    type V = DelayedView;

    open spec fn view(&self) -> DelayedView {
        DelayedView {
            due: self.due,
            request: self.request@,
            ioa: self.ioa,
            control_kind: self.control_kind,
            desired: self.desired@,
            phase: self.phase,
        }
    }
}

/// Commands by the times at which they are due.
struct ControlsByDue;

impl Order<DelayedControl> for ControlsByDue {
    open spec fn precedes(&self, left: &DelayedControl, right: &DelayedControl) -> bool {
        left.due <= right.due
    }

    fn stands_before(&self, left: &DelayedControl, right: &DelayedControl) -> (result: bool) {
        left.due <= right.due
    }
}

pub open spec fn delayed_views(delayed: Seq<DelayedControl>) -> Seq<DelayedView> {
    delayed.map_values(|control: DelayedControl| control@)
}

pub open spec fn by_due() -> spec_fn(DelayedView, DelayedView) -> bool {
    |a: DelayedView, b: DelayedView| a.due <= b.due
}

/// The collecting side with its points, whether it is connected or not.
#[derive(Debug, Clone)]
pub struct CollectSide {
    pub common_address: u16,
    pub fault_delay_ms: u64,
    pub originator_address: u8,
    pub station: Station,
    pub fault_policy: Option<FaultPolicy>,
    /// A point table that waits to be committed, with its generation.
    pub prepared: Option<(u64, Station)>,
    pub desk: Desk,
}

#[verifier::ext_equal]
pub struct CollectState {
    pub common_address: u16,
    pub fault_delay_ms: u64,
    pub originator_address: u8,
    pub points: Seq<PointStateView>,
    pub fault_policy: Option<FaultPolicy>,
    pub prepared: Option<(u64, Seq<PointStateView>)>,
    pub desk: DeskState,
}

pub open spec fn prepared_view(prepared: Option<(u64, Station)>) -> Option<
    (u64, Seq<PointStateView>),
> {
    match prepared {
        Some((generation, station)) => Some((generation, station@)),
        None => None,
    }
}

impl View for CollectSide {
    type V = CollectState;

    open spec fn view(&self) -> CollectState {
        CollectState {
            common_address: self.common_address,
            fault_delay_ms: self.fault_delay_ms,
            originator_address: self.originator_address,
            points: self.station@,
            fault_policy: self.fault_policy,
            prepared: prepared_view(self.prepared),
            desk: self.desk@,
        }
    }
}

/// The collecting side while a peer is connected.
#[derive(Debug, Clone)]
pub struct CollectSession {
    pub home: CollectSide,
    pub link: LinkSession,
    pub delayed: Vec<DelayedControl>,
    /// Units that wait until a prepared point table is committed or dropped.
    pub deferred: VecDeque<Asdu>,
}

#[verifier::ext_equal]
pub struct SessionState {
    pub home: CollectState,
    pub link: LinkState,
    pub delayed: Seq<DelayedView>,
    pub deferred: Seq<AsduView>,
}

impl View for CollectSession {
    type V = SessionState;

    open spec fn view(&self) -> SessionState {
        SessionState {
            home: self.home@,
            link: self.link@,
            delayed: delayed_views(self.delayed@),
            deferred: unit_views(self.deferred@),
        }
    }
}

impl CollectState {
    pub open spec fn with_desk(self, desk: DeskState) -> CollectState {
        CollectState { desk, ..self }
    }

    pub open spec fn log(
        self,
        now: Moment,
        direction: Direction,
        severity: Severity,
        category: LogCategory,
        summary: Seq<char>,
    ) -> CollectState {
        self.with_desk(self.desk.log(now, direction, severity, category, summary))
    }

    pub open spec fn emit(self, event: EventView) -> CollectState {
        self.with_desk(self.desk.emit(event))
    }

    /// Shows the values of the points.
    pub open spec fn show_values(self) -> CollectState {
        self.emit(EventView::CollectValues(station_rows(self.points)))
    }
}

impl SessionState {
    pub open spec fn with_home(self, home: CollectState) -> SessionState {
        SessionState { home, ..self }
    }

    pub open spec fn log(
        self,
        now: Moment,
        direction: Direction,
        severity: Severity,
        category: LogCategory,
        summary: Seq<char>,
    ) -> SessionState {
        self.with_home(self.home.log(now, direction, severity, category, summary))
    }

    /// After units were to be sent, and why one was not.
    pub open spec fn send(self, units: Seq<AsduView>, now: Moment) -> (
        SessionState,
        Option<Seq<char>>,
    ) {
        let (desk, link, error) = after_send_units(self.home.desk, self.link, units, now);
        (SessionState { home: self.home.with_desk(desk), link, ..self }, error)
    }

    /// The answer to a request with a cause.
    pub open spec fn answer(self, request: AsduView, cot: u8, negative: bool) -> AsduView {
        confirmed(request, cot, negative, self.home.common_address)
    }

    /// Sends units; a failure is the failure of the request.
    pub open spec fn reply(self, units: Seq<AsduView>, now: Moment) -> (
        SessionState,
        Result<bool, Seq<char>>,
    ) {
        let (after, error) = self.send(units, now);
        match error {
            Some(text) => (after, Err(text)),
            None => (after, Ok(false)),
        }
    }
}

impl CollectSession {
    fn send(&mut self, units: Vec<Asdu>, now: Moment) -> (result: Result<(), String>)
        requires
            old(self)@.link.consistent(),
        ensures
            (final(self)@, error_view(result)) == old(self)@.send(unit_views(units@), now),
            final(self)@.link.consistent(),
    {
        self.home.desk.send_units(&mut self.link, units, now)
    }

    fn log(
        &mut self,
        now: Moment,
        direction: Direction,
        severity: Severity,
        category: LogCategory,
        summary: String,
    )
        ensures
            final(self)@ == old(self)@.log(now, direction, severity, category, summary@),
    {
        self.home.desk.log(now, direction, severity, category, summary);
    }
}

// ---------------------------------------------------------------------------
// Commands of the other side.
/// What becomes of a command.
#[derive(Debug, Clone, Copy, PartialEq, Eq, Structural)]
pub enum ControlDecision {
    Success,
    Reject,
    ActConOnly,
    Silent,
    Delay(u64),
    Disconnect,
}

/// The answer that a control target gives by itself.
pub open spec fn own_decision(response: DefaultResponseMode, delay_ms: u64) -> ControlDecision {
    match response {
        DefaultResponseMode::Success => ControlDecision::Success,
        DefaultResponseMode::Reject => ControlDecision::Reject,
        DefaultResponseMode::ActConOnly => ControlDecision::ActConOnly,
        DefaultResponseMode::Silent => ControlDecision::Silent,
        DefaultResponseMode::DelaySuccess => ControlDecision::Delay(delay_ms),
    }
}

/// The answer that a policy of the operator asks for.
pub open spec fn policy_decision(policy: FaultPolicy, fault_delay_ms: u64) -> ControlDecision {
    match policy {
        FaultPolicy::Success => ControlDecision::Success,
        FaultPolicy::RejectSelect => ControlDecision::Reject,
        FaultPolicy::RejectExecute => ControlDecision::Reject,
        FaultPolicy::ActConOnly => ControlDecision::ActConOnly,
        FaultPolicy::Silent => ControlDecision::Silent,
        FaultPolicy::DelaySuccess => ControlDecision::Delay(fault_delay_ms),
        FaultPolicy::Disconnect => ControlDecision::Disconnect,
    }
}

fn decide_by_point(response: DefaultResponseMode, delay_ms: u64) -> (result: ControlDecision)
    ensures
        result == own_decision(response, delay_ms),
{
    match response {
        DefaultResponseMode::Success => ControlDecision::Success,
        DefaultResponseMode::Reject => ControlDecision::Reject,
        DefaultResponseMode::ActConOnly => ControlDecision::ActConOnly,
        DefaultResponseMode::Silent => ControlDecision::Silent,
        DefaultResponseMode::DelaySuccess => ControlDecision::Delay(delay_ms),
    }
}

fn decide_by_policy(policy: FaultPolicy, fault_delay_ms: u64) -> (result: ControlDecision)
    ensures
        result == policy_decision(policy, fault_delay_ms),
{
    match policy {
        FaultPolicy::Success => ControlDecision::Success,
        FaultPolicy::RejectSelect | FaultPolicy::RejectExecute => ControlDecision::Reject,
        FaultPolicy::ActConOnly => ControlDecision::ActConOnly,
        FaultPolicy::Silent => ControlDecision::Silent,
        FaultPolicy::DelaySuccess => ControlDecision::Delay(fault_delay_ms),
        FaultPolicy::Disconnect => ControlDecision::Disconnect,
    }
}

/// A command that was understood.
#[derive(Debug)]
pub struct Control {
    pub request: Asdu,
    pub ioa: u32,
    pub kind: ControlKind,
    pub asked: ControlRequest,
    pub phase: ControlPhase,
}

#[verifier::ext_equal]
pub struct ControlView {
    pub request: AsduView,
    pub ioa: u32,
    pub kind: ControlKind,
    pub asked: ControlRequest,
    pub phase: ControlPhase,
}

impl View for Control {
    type V = ControlView;

    open spec fn view(&self) -> ControlView {
        ControlView {
            request: self.request@,
            ioa: self.ioa,
            kind: self.kind,
            asked: self.asked,
            phase: self.phase,
        }
    }
}

impl SessionState {
    /// The side after a policy of the operator was used up by a command.
    pub open spec fn consult_policy(self, phase: ControlPhase, own: ControlDecision) -> (
        SessionState,
        ControlDecision,
    ) {
        match self.home.fault_policy {
            Some(policy) => if policy.applies(phase) {
                (
                    self.with_home(
                        CollectState { fault_policy: None, ..self.home }.emit(
                            EventView::FaultPolicyChanged(None),
                        ),
                    ),
                    policy_decision(policy, self.home.fault_delay_ms),
                )
            } else {
                (self, own)
            },
            None => (self, own),
        }
    }

    /// A control target has the value that its command led to.
    pub open spec fn committed(
        self,
        ioa: u32,
        kind: ControlKind,
        desired: SampleView,
        now: Moment,
    ) -> (SessionState, Option<Seq<char>>) {
        match position(self.home.points, control_target(ioa, kind)) {
            None => (self, Some("控制提交时未找到 IOA="@ + decimal(ioa as nat))),
            Some(index) => {
                let points = self.home.points.update(
                    index,
                    PointStateView {
                        value: desired,
                        updated_ms: now.wall_ms,
                        ..self.home.points[index]
                    },
                );
                let home = CollectState { points, ..self.home }.show_values().log(
                    now,
                    Direction::Internal,
                    Severity::Success,
                    LogCategory::Control,
                    "控制完成并提交点值：IOA="@ + decimal(ioa as nat) + " value="@ + desired.plain,
                );
                (self.with_home(home), None)
            },
        }
    }

    /// A command is confirmed; an executed one is also terminated, and only
    /// then does its target take the value.
    pub open spec fn completed(
        self,
        request: AsduView,
        ioa: u32,
        kind: ControlKind,
        desired: SampleView,
        phase: ControlPhase,
        confirm_only: bool,
        now: Moment,
    ) -> (SessionState, Option<Seq<char>>) {
        let (confirmed, error) = self.send(
            seq![self.answer(request, COT_ACTIVATION_CONFIRMATION, false)],
            now,
        );
        if error is Some || phase is Select || confirm_only {
            (confirmed, error)
        } else {
            let (terminated, error) = confirmed.send(
                seq![self.answer(request, COT_ACTIVATION_TERMINATION, false)],
                now,
            );
            match error {
                Some(text) => (terminated, Some(text)),
                None => terminated.committed(ioa, kind, desired, now),
            }
        }
    }

    /// A command waits for its time.
    pub open spec fn delay(
        self,
        control: ControlView,
        desired: SampleView,
        delay_ms: u64,
        now: Moment,
    ) -> SessionState {
        let effective = if delay_ms == 0 {
            self.home.fault_delay_ms
        } else {
            delay_ms
        };
        let logged = self.log(
            now,
            Direction::Internal,
            Severity::Warning,
            LogCategory::Control,
            "IOA="@ + decimal(control.ioa as nat) + " 延迟 "@ + decimal(effective as nat)
                + " ms 后应答"@,
        );
        let waiting = DelayedView {
            due: saturated_sum(now.tick_ms, effective),
            request: control.request,
            ioa: control.ioa,
            control_kind: control.kind,
            desired,
            phase: control.phase,
        };
        SessionState { delayed: sorted_by(logged.delayed.push(waiting), by_due()), ..logged }
    }

    /// A command is dealt with as decided; whether the link is to be closed.
    pub open spec fn decided(
        self,
        control: ControlView,
        desired: SampleView,
        decision: ControlDecision,
        now: Moment,
    ) -> (SessionState, Result<bool, Seq<char>>) {
        match decision {
            ControlDecision::Disconnect => (
                self.log(
                    now,
                    Direction::Internal,
                    Severity::Warning,
                    LogCategory::Control,
                    "一次性策略命中：收到 IOA="@ + decimal(control.ioa as nat)
                        + " 后立即断开采集连接"@,
                ),
                Ok(true),
            ),
            ControlDecision::Silent => (
                self.log(
                    now,
                    Direction::Internal,
                    Severity::Warning,
                    LogCategory::Control,
                    "一次性/点位策略命中：IOA="@ + decimal(control.ioa as nat) + " 完全静默"@,
                ),
                Ok(false),
            ),
            ControlDecision::Delay(delay_ms) => (
                self.delay(control, desired, delay_ms, now),
                Ok(false),
            ),
            ControlDecision::Reject => self.reply(
                seq![self.answer(control.request, COT_ACTIVATION_CONFIRMATION, true)],
                now,
            ),
            ControlDecision::Success | ControlDecision::ActConOnly => {
                let (after, error) = self.completed(
                    control.request,
                    control.ioa,
                    control.kind,
                    desired,
                    control.phase,
                    decision is ActConOnly,
                    now,
                );
                match error {
                    Some(text) => (after, Err(text)),
                    None => (after, Ok(false)),
                }
            },
        }
    }

    /// A command is answered.
    pub open spec fn controlled(self, control: ControlView, computed: SampleView, now: Moment) -> (
        SessionState,
        Result<bool, Seq<char>>,
    ) {
        match control_outcome(
            self.home.points,
            control.ioa,
            control.kind,
            control.asked,
            computed,
        ) {
            Err(text) => {
                let logged = self.log(
                    now,
                    Direction::Internal,
                    Severity::Warning,
                    LogCategory::Control,
                    text,
                );
                logged.reply(
                    seq![self.answer(control.request, COT_UNKNOWN_OBJECT_ADDRESS, true)],
                    now,
                )
            },
            Ok(desired) => {
                let index = position(
                    self.home.points,
                    control_target(control.ioa, control.kind),
                )->0;
                let config = self.home.points[index].config;
                let (after, decision) = self.consult_policy(
                    control.phase,
                    own_decision(config.response, config.response_delay_ms),
                );
                after.decided(control, desired, decision, now)
            },
        }
    }
}

fn one_unit(unit: Asdu) -> (result: Vec<Asdu>)
    ensures
        unit_views(result@) == seq![unit@],
{
    let units: Vec<Asdu> = vec![unit];
    assert(unit_views(units@) =~= seq![unit@]);
    units
}

pub open spec fn outcome_view(result: Result<bool, String>) -> Result<bool, Seq<char>> {
    match result {
        Ok(disconnect) => Ok(disconnect),
        Err(text) => Err(text@),
    }
}

impl CollectSide {
    fn show_values(&mut self)
        ensures
            final(self)@ == old(self)@.show_values(),
    {
        let values = self.station.views();
        self.desk.emit(RuntimeEvent::CollectValues(values));
    }
}

impl CollectSession {
    fn reply(&mut self, units: Vec<Asdu>, now: Moment) -> (result: Result<bool, String>)
        requires
            old(self)@.link.consistent(),
        ensures
            (final(self)@, outcome_view(result)) == old(self)@.reply(unit_views(units@), now),
            final(self)@.link.consistent(),
    {
        match self.send(units, now) {
            Ok(_) => Ok(false),
            Err(text) => Err(text),
        }
    }

    fn consult_policy(&mut self, phase: ControlPhase, own: ControlDecision) -> (result:
        ControlDecision)
        ensures
            (final(self)@, result) == old(self)@.consult_policy(phase, own),
            final(self)@.link == old(self)@.link,
    {
        match self.home.fault_policy {
            Some(policy) => {
                if policy.matches(phase) {
                    self.home.fault_policy = None;
                    self.home.desk.emit(RuntimeEvent::FaultPolicyChanged(None));
                    decide_by_policy(policy, self.home.fault_delay_ms)
                } else {
                    own
                }
            },
            None => own,
        }
    }

    fn commit(&mut self, ioa: u32, kind: ControlKind, desired: Sample, now: Moment) -> (result:
        Result<(), String>)
        ensures
            (final(self)@, error_view(result)) == old(self)@.committed(ioa, kind, desired@, now),
            final(self)@.link == old(self)@.link,
    {
        let shown = desired.plain.clone();
        if let Err(text) = self.home.station.commit_control(ioa, kind, desired, now.wall_ms) {
            return Err(text);
        }
        self.home.show_values();
        let text = cat_number("控制完成并提交点值：IOA=".to_owned(), ioa as u64);
        let text = cat(cat(text, " value="), shown.as_str());
        self.log(now, Direction::Internal, Severity::Success, LogCategory::Control, text);
        Ok(())
    }

    fn complete_success_control(
        &mut self,
        request: &Asdu,
        ioa: u32,
        kind: ControlKind,
        desired: Sample,
        phase: ControlPhase,
        actcon_only: bool,
        now: Moment,
    ) -> (result: Result<(), String>)
        requires
            old(self)@.link.consistent(),
        ensures
            (final(self)@, error_view(result)) == old(self)@.completed(
                request@,
                ioa,
                kind,
                desired@,
                phase,
                actcon_only,
                now,
            ),
            final(self)@.link.consistent(),
    {
        let address: u16 = self.home.common_address;
        let confirm = confirmation(request, COT_ACTIVATION_CONFIRMATION, false, address);
        if let Err(text) = self.send(one_unit(confirm), now) {
            return Err(text);
        }
        if phase == ControlPhase::Select || actcon_only {
            return Ok(());
        }
        let terminate = confirmation(request, COT_ACTIVATION_TERMINATION, false, address);
        if let Err(text) = self.send(one_unit(terminate), now) {
            return Err(text);
        }
        self.commit(ioa, kind, desired, now)
    }

    fn delay_control(&mut self, control: Control, desired: Sample, delay_ms: u64, now: Moment)
        ensures
            final(self)@ == old(self)@.delay(control@, desired@, delay_ms, now),
            final(self)@.link == old(self)@.link,
    {
        let effective: u64 = if delay_ms == 0 {
            self.home.fault_delay_ms
        } else {
            delay_ms
        };
        let text = cat(cat_number("IOA=".to_owned(), control.ioa as u64), " 延迟 ");
        let text = cat(cat_number(text, effective), " ms 后应答");
        self.log(now, Direction::Internal, Severity::Warning, LogCategory::Control, text);
        let waiting = DelayedControl {
            due: now.tick_ms.saturating_add(effective),
            request: control.request,
            ioa: control.ioa,
            control_kind: control.kind,
            desired,
            phase: control.phase,
        };
        let ghost before = self.delayed@;
        let mut all: Vec<DelayedControl> = Vec::new();
        all.append(&mut self.delayed);
        all.push(waiting);
        proof {
            assert(all@ =~= before.push(waiting));
            let view = |control: DelayedControl| control@;
            lemma_sorting_views(
                all@,
                order_of::<DelayedControl, ControlsByDue>(&ControlsByDue),
                view,
                by_due(),
            );
            assert(all@.map_values(view) =~= delayed_views(before).push(waiting@));
        }
        self.delayed = stable_sort(all, &ControlsByDue);
        assert(delayed_views(self.delayed@) =~= self.delayed@.map_values(
            |control: DelayedControl| control@,
        ));
    }

    /// Answers a command. The computed sample is the stepped value or the set
    /// point that the command asks for.
    pub fn control_response(&mut self, control: Control, computed: &Sample, now: Moment) -> (result:
        Result<bool, String>)
        requires
            old(self)@.link.consistent(),
        ensures
            (final(self)@, outcome_view(result)) == old(self)@.controlled(
                control@,
                computed@,
                now,
            ),
            final(self)@.link.consistent(),
    {
        let address: u16 = self.home.common_address;
        let desired = match self.home.station.control_value(
            control.ioa,
            control.kind,
            control.asked,
            computed,
        ) {
            Ok(desired) => desired,
            Err(text) => {
                self.log(now, Direction::Internal, Severity::Warning, LogCategory::Control, text);
                let refusal = confirmation(
                    &control.request,
                    COT_UNKNOWN_OBJECT_ADDRESS,
                    true,
                    address,
                );
                return self.reply(one_unit(refusal), now);
            },
        };
        let own = match self.home.station.point(control.ioa, control.kind) {
            Some(index) => {
                let config = &self.home.station.points[index].config;
                assert(config@ == self.home.station@[index as int].config);
                decide_by_point(config.response, config.response_delay_ms)
            },
            None => {
                assert(false);
                ControlDecision::Silent
            },
        };
        let decision = self.consult_policy(control.phase, own);
        match decision {
            ControlDecision::Disconnect => {
                let text = cat_number("一次性策略命中：收到 IOA=".to_owned(), control.ioa as u64);
                let text = cat(text, " 后立即断开采集连接");
                self.log(now, Direction::Internal, Severity::Warning, LogCategory::Control, text);
                Ok(true)
            },
            ControlDecision::Silent => {
                let text = cat_number(
                    "一次性/点位策略命中：IOA=".to_owned(),
                    control.ioa as u64,
                );
                let text = cat(text, " 完全静默");
                self.log(now, Direction::Internal, Severity::Warning, LogCategory::Control, text);
                Ok(false)
            },
            ControlDecision::Delay(delay_ms) => {
                self.delay_control(control, desired, delay_ms, now);
                Ok(false)
            },
            ControlDecision::Reject => {
                let refusal = confirmation(
                    &control.request,
                    COT_ACTIVATION_CONFIRMATION,
                    true,
                    address,
                );
                self.reply(one_unit(refusal), now)
            },
            ControlDecision::Success | ControlDecision::ActConOnly => {
                let confirm_only = matches!(decision, ControlDecision::ActConOnly);
                match self.complete_success_control(
                    &control.request,
                    control.ioa,
                    control.kind,
                    desired,
                    control.phase,
                    confirm_only,
                    now,
                ) {
                    Ok(_) => Ok(false),
                    Err(text) => Err(text),
                }
            },
        }
    }
}

// ---------------------------------------------------------------------------
// Requests of the other side.
/// What a request demands.
#[derive(Debug, Clone, Copy, PartialEq, Eq, Structural)]
pub enum Demand {
    Interrogation { qoi: u8 },
    Counters { rqt: u8 },
    Clock,
    Control { ioa: u32, kind: ControlKind, asked: ControlRequest, phase: ControlPhase },
    /// A set point, by the bits of its value.
    Setpoint { ioa: u32, bits: u32, phase: ControlPhase },
    /// Something that needs an object, and has none.
    Empty,
    Unknown,
}

pub open spec fn step_phase(se: SelectExecute) -> ControlPhase {
    match se {
        SelectExecute::Select => ControlPhase::Select,
        SelectExecute::Execute => ControlPhase::Execute,
    }
}

pub fn control_phase(value: SelectExecute) -> (result: ControlPhase)
    ensures
        result == step_phase(value),
{
    match value {
        SelectExecute::Select => ControlPhase::Select,
        SelectExecute::Execute => ControlPhase::Execute,
    }
}

/// The group that a counter interrogation asks for; without one, all.
pub open spec fn asked_counter_group(rqt: u8) -> Option<u8> {
    if 1 <= rqt <= 4 {
        Some(rqt)
    } else {
        None
    }
}

pub fn counter_group(request: u8) -> (group: Option<u8>)
    ensures
        group == asked_counter_group(request),
{
    if 1 <= request && request <= 4 {
        Some(request)
    } else {
        None
    }
}

/// What the first object of a request demands.
pub open spec fn object_demand(object: InformationObject) -> Demand {
    let ioa = object.address;
    match object.element {
        Element::Interrogation { qoi } => Demand::Interrogation { qoi },
        Element::CounterInterrogation { rqt, .. } => Demand::Counters { rqt },
        Element::ClockSync { .. } => Demand::Clock,
        Element::SingleCommand { scs, qu } => Demand::Control {
            ioa,
            kind: ControlKind::Single,
            asked: ControlRequest::State(Some(scs is On)),
            phase: step_phase(qu.se),
        },
        Element::DoubleCommand { dcs, qu } => Demand::Control {
            ioa,
            kind: ControlKind::Double,
            asked: ControlRequest::State(
                match dcs {
                    Dpi::Off => Some(false),
                    Dpi::On => Some(true),
                    _ => None,
                },
            ),
            phase: step_phase(qu.se),
        },
        Element::RegulatingCommand { rcs, qu } => Demand::Control {
            ioa,
            kind: ControlKind::Regulating,
            asked: ControlRequest::Step(
                match rcs {
                    Rcs::Decrement => Some(false),
                    Rcs::Increment => Some(true),
                    _ => None,
                },
            ),
            phase: step_phase(qu.se),
        },
        Element::FloatSetpoint { bits, qos } => Demand::Setpoint {
            ioa,
            bits,
            phase: step_phase(qos.se),
        },
        _ => Demand::Unknown,
    }
}

/// Why a request of a type needs an object.
pub open spec fn empty_text(type_id: TypeId) -> Option<Seq<char>> {
    match type_id {
        TypeId::C_IC_NA_1 => Some("总召请求没有信息体"@),
        TypeId::C_CI_NA_1 => Some("电度总召请求没有信息体"@),
        TypeId::C_SC_NA_1 => Some("单点控制没有信息体"@),
        TypeId::C_DC_NA_1 => Some("双点控制没有信息体"@),
        TypeId::C_RC_NA_1 => Some("升降控制没有信息体"@),
        TypeId::C_SE_NC_1 => Some("短浮点遥调没有信息体"@),
        _ => None,
    }
}

fn empty_refusal(type_id: TypeId) -> (result: Option<&'static str>)
    ensures
        match result {
            Some(text) => empty_text(type_id) == Some(text@),
            None => empty_text(type_id) is None,
        },
{
    match type_id {
        TypeId::C_IC_NA_1 => Some("总召请求没有信息体"),
        TypeId::C_CI_NA_1 => Some("电度总召请求没有信息体"),
        TypeId::C_SC_NA_1 => Some("单点控制没有信息体"),
        TypeId::C_DC_NA_1 => Some("双点控制没有信息体"),
        TypeId::C_RC_NA_1 => Some("升降控制没有信息体"),
        TypeId::C_SE_NC_1 => Some("短浮点遥调没有信息体"),
        _ => None,
    }
}

/// What a request demands.
pub open spec fn demand_of(request: AsduView) -> Demand {
    match request.objects {
        ObjectsView::Known(objects) => if objects.len() > 0 {
            object_demand(objects[0])
        } else if request.type_id is C_CS_NA_1 {
            Demand::Clock
        } else if empty_text(request.type_id) is Some {
            Demand::Empty
        } else {
            Demand::Unknown
        },
        ObjectsView::Other { .. } => Demand::Unknown,
    }
}

/// What a request demands.
pub fn demand(request: &Asdu) -> (result: Demand)
    ensures
        result == demand_of(request@),
{
    let objects = match &request.information_objects {
        InformationObjects::Known(objects) => objects,
        InformationObjects::Other { .. } => {
            return Demand::Unknown;
        },
    };
    if objects.len() == 0 {
        return if request.type_id == TypeId::C_CS_NA_1 {
            Demand::Clock
        } else if empty_refusal(request.type_id).is_some() {
            Demand::Empty
        } else {
            Demand::Unknown
        };
    }
    let ioa: u32 = objects[0].address;
    match objects[0].element {
        Element::Interrogation { qoi } => Demand::Interrogation { qoi },
        Element::CounterInterrogation { rqt, .. } => Demand::Counters { rqt },
        Element::ClockSync { .. } => Demand::Clock,
        Element::SingleCommand { scs, qu } => Demand::Control {
            ioa,
            kind: ControlKind::Single,
            asked: ControlRequest::State(Some(matches!(scs, Spi::On))),
            phase: control_phase(qu.se),
        },
        Element::DoubleCommand { dcs, qu } => Demand::Control {
            ioa,
            kind: ControlKind::Double,
            asked: ControlRequest::State(
                match dcs {
                    Dpi::Off => Some(false),
                    Dpi::On => Some(true),
                    _ => None,
                },
            ),
            phase: control_phase(qu.se),
        },
        Element::RegulatingCommand { rcs, qu } => Demand::Control {
            ioa,
            kind: ControlKind::Regulating,
            asked: ControlRequest::Step(
                match rcs {
                    Rcs::Decrement => Some(false),
                    Rcs::Increment => Some(true),
                    _ => None,
                },
            ),
            phase: control_phase(qu.se),
        },
        Element::FloatSetpoint { bits, qos } => Demand::Setpoint {
            ioa,
            bits,
            phase: control_phase(qos.se),
        },
        _ => Demand::Unknown,
    }
}

/// The sample of a set point: the value that the command holds, with the
/// renderings that were computed.
pub open spec fn setpoint_sample(bits: u32, computed: SampleView) -> SampleView {
    SampleView { value: crate::number::widen(bits), ..computed }
}

impl SessionState {
    /// The units that answer an interrogation: a confirmation, the reports and
    /// a termination.
    pub open spec fn framed(self, request: AsduView, reports: Seq<AsduView>) -> Seq<AsduView> {
        seq![self.answer(request, COT_ACTIVATION_CONFIRMATION, false)] + reports + seq![
            self.answer(request, COT_ACTIVATION_TERMINATION, false),
        ]
    }

    pub open spec fn report_header(self, request: AsduView, cot: u8) -> ReportHeader {
        ReportHeader {
            cot,
            common_address: self.home.common_address,
            originator_address: request.originator_address,
            test: request.test,
        }
    }

    /// A request is dealt with; whether the link is to be closed, or why the
    /// request failed.
    pub open spec fn handled(self, request: AsduView, computed: SampleView, now: Moment) -> (
        SessionState,
        Result<bool, Seq<char>>,
    ) {
        if request.address_field != self.home.common_address && request.address_field != u16::MAX {
            self.reply(seq![self.answer(request, COT_UNKNOWN_ASDU_ADDRESS, true)], now)
        } else {
            match demand_of(request) {
                Demand::Interrogation { qoi } => match interrogation_cause(qoi) {
                    None => self.reply(seq![self.answer(request, COT_UNKNOWN_CAUSE, true)], now),
                    Some(cot) => self.reply(
                        self.framed(
                            request,
                            general_units(
                                self.home.points,
                                interrogated_group(qoi),
                                self.report_header(request, cot),
                            ),
                        ),
                        now,
                    ),
                },
                Demand::Counters { rqt } => self.reply(
                    self.framed(
                        request,
                        plain_units(
                            self.home.points,
                            crate::model::CollectPointKind::Counter,
                            asked_counter_group(rqt),
                            self.report_header(request, counter_interrogation_cause(rqt)),
                        ),
                    ),
                    now,
                ),
                Demand::Clock => self.reply(
                    seq![self.answer(request, COT_ACTIVATION_CONFIRMATION, false)],
                    now,
                ),
                Demand::Control { ioa, kind, asked, phase } => self.controlled(
                    ControlView { request, ioa, kind, asked, phase },
                    computed,
                    now,
                ),
                Demand::Setpoint { ioa, bits, phase } => self.controlled(
                    ControlView {
                        request,
                        ioa,
                        kind: ControlKind::Setpoint,
                        asked: ControlRequest::Setpoint,
                        phase,
                    },
                    setpoint_sample(bits, computed),
                    now,
                ),
                Demand::Empty => (self, Err(empty_text(request.type_id)->0)),
                Demand::Unknown => (
                    self.log(
                        now,
                        Direction::Incoming,
                        Severity::Warning,
                        LogCategory::Protocol,
                        "当前采集模拟器不处理 TypeID="@ + iec_type_name(request.type_id.number()),
                    ),
                    Ok(false),
                ),
            }
        }
    }

    /// A unit is dealt with; whether the link is to be closed.
    pub open spec fn processed(self, request: AsduView, computed: SampleView, now: Moment) -> (
        SessionState,
        bool,
    ) {
        let (after, outcome) = self.handled(request, computed, now);
        match outcome {
            Ok(disconnect) => (after, disconnect),
            Err(text) => (
                after.log(
                    now,
                    Direction::Internal,
                    Severity::Error,
                    LogCategory::Protocol,
                    "处理采集请求失败: "@ + text,
                ),
                false,
            ),
        }
    }
}

impl CollectSession {
    fn reply_framed(&mut self, request: &Asdu, reports: Vec<Asdu>, now: Moment) -> (result: Result<
        bool,
        String,
    >)
        requires
            old(self)@.link.consistent(),
        ensures
            (final(self)@, outcome_view(result)) == old(self)@.reply(
                old(self)@.framed(request@, unit_views(reports@)),
                now,
            ),
            final(self)@.link.consistent(),
    {
        let address: u16 = self.home.common_address;
        let mut units = one_unit(
            confirmation(request, COT_ACTIVATION_CONFIRMATION, false, address),
        );
        let mut reports = reports;
        let ghost reported = unit_views(reports@);
        units.append(&mut reports);
        let last = confirmation(request, COT_ACTIVATION_TERMINATION, false, address);
        units.push(last);
        assert(unit_views(units@) =~= self@.framed(request@, reported));
        self.reply(units, now)
    }

    /// Deals with a request of the other side. The computed sample is the one
    /// that `demand` asks for: a stepped value, or the renderings of a set
    /// point.
    pub fn handle_asdu(&mut self, request: Asdu, computed: &Sample, now: Moment) -> (result: Result<
        bool,
        String,
    >)
        requires
            old(self)@.link.consistent(),
        ensures
            (final(self)@, outcome_view(result)) == old(self)@.handled(request@, computed@, now),
            final(self)@.link.consistent(),
    {
        let address: u16 = self.home.common_address;
        if request.address_field != address && request.address_field != u16::MAX {
            let refusal = confirmation(&request, COT_UNKNOWN_ASDU_ADDRESS, true, address);
            return self.reply(one_unit(refusal), now);
        }
        match demand(&request) {
            Demand::Interrogation { qoi } => {
                let cot: u8 = match interrogation_cot(qoi) {
                    Some(cot) => cot,
                    None => {
                        let refusal = confirmation(&request, COT_UNKNOWN_CAUSE, true, address);
                        return self.reply(one_unit(refusal), now);
                    },
                };
                let header = ReportHeader {
                    cot,
                    common_address: address,
                    originator_address: request.originator_address,
                    test: request.test,
                };
                match self.home.station.general_frames(qoi_group(qoi), header) {
                    Ok(reports) => self.reply_framed(&request, reports, now),
                    Err(text) => {
                        assert(false);
                        Err(text)
                    },
                }
            },
            Demand::Counters { rqt } => {
                let header = ReportHeader {
                    cot: counter_interrogation_cot(rqt),
                    common_address: address,
                    originator_address: request.originator_address,
                    test: request.test,
                };
                match self.home.station.counter_frames(counter_group(rqt), header) {
                    Ok(reports) => self.reply_framed(&request, reports, now),
                    Err(text) => {
                        assert(false);
                        Err(text)
                    },
                }
            },
            Demand::Clock => {
                let confirm = confirmation(&request, COT_ACTIVATION_CONFIRMATION, false, address);
                self.reply(one_unit(confirm), now)
            },
            Demand::Control { ioa, kind, asked, phase } => {
                let control = Control { request, ioa, kind, asked, phase };
                self.control_response(control, computed, now)
            },
            Demand::Setpoint { ioa, bits, phase } => {
                let setpoint = Sample {
                    value: Real::from_single(bits),
                    plain: computed.plain.clone(),
                    rounded: computed.rounded.clone(),
                    fixed: computed.fixed.clone(),
                };
                let control = Control {
                    request,
                    ioa,
                    kind: ControlKind::Setpoint,
                    asked: ControlRequest::Setpoint,
                    phase,
                };
                self.control_response(control, &setpoint, now)
            },
            Demand::Empty => {
                match empty_refusal(request.type_id) {
                    Some(text) => Err(text.to_owned()),
                    None => {
                        assert(false);
                        Err(String::new())
                    },
                }
            },
            Demand::Unknown => {
                let name = type_mnemonic(request.type_id.code());
                let text = cat("当前采集模拟器不处理 TypeID=".to_owned(), name.as_str());
                self.log(
                    now,
                    Direction::Incoming,
                    Severity::Warning,
                    LogCategory::Protocol,
                    text,
                );
                Ok(false)
            },
        }
    }

    /// Deals with a unit; whether the link is to be closed.
    pub fn process_business_asdu(&mut self, request: Asdu, computed: &Sample, now: Moment) -> (
        result: bool)
        requires
            old(self)@.link.consistent(),
        ensures
            (final(self)@, result) == old(self)@.processed(request@, computed@, now),
            final(self)@.link.consistent(),
    {
        match self.handle_asdu(request, computed, now) {
            Ok(disconnect) => disconnect,
            Err(text) => {
                let text = cat("处理采集请求失败: ".to_owned(), text.as_str());
                self.log(now, Direction::Internal, Severity::Error, LogCategory::Protocol, text);
                false
            },
        }
    }
}

/// What has to be computed with floating point before a request is dealt with.
#[derive(Debug, Clone, Copy, PartialEq, Eq, Structural)]
pub enum ControlInput {
    Nothing,
    /// The value one step above or below the present one.
    Stepped { current: Real, step: Real, up: bool },
    /// The renderings of a set point.
    Setpoint { bits: u32 },
}

pub open spec fn input_of(points: Seq<PointStateView>, request: AsduView) -> ControlInput {
    match demand_of(request) {
        Demand::Control { ioa, kind, asked: ControlRequest::Step(Some(up)), .. } => match position(
            points,
            control_target(ioa, kind),
        ) {
            Some(index) => ControlInput::Stepped {
                current: points[index].value.value,
                step: points[index].config.step,
                up,
            },
            None => ControlInput::Nothing,
        },
        Demand::Setpoint { bits, .. } => ControlInput::Setpoint { bits },
        _ => ControlInput::Nothing,
    }
}

// ---------------------------------------------------------------------------
// A connected session.
/// What the connection is to do next.
#[derive(Debug, Clone, Copy, PartialEq, Eq, Structural)]
pub enum SessionExit {
    Stay,
    Disconnect,
}

impl SessionState {
    /// A frame came in.
    pub open spec fn received(self, frame: FrameView, computed: SampleView, now: Moment) -> (
        SessionState,
        SessionExit,
    ) {
        let (link, outcome) = after_frame(self.link, frame, now.tick_ms);
        let heard = SessionState { link, ..self };
        match outcome {
            Err(text) => (
                heard.log(
                    now,
                    Direction::Internal,
                    Severity::Error,
                    LogCategory::Protocol,
                    "采集链路处理失败: "@ + text,
                ),
                SessionExit::Disconnect,
            ),
            Ok(processed) => {
                let recorded = self.home.desk.transmit_all(processed.replies).record_all(
                    processed.events,
                    now,
                );
                let shown = match processed.phase_changed {
                    Some(phase) => recorded.enter(phase, phase.label_text()),
                    None => recorded,
                };
                let ready = heard.with_home(self.home.with_desk(shown));
                match processed.asdu {
                    None => (ready, SessionExit::Stay),
                    Some(asdu) => ready.took(asdu, computed, now),
                }
            },
        }
    }

    /// A unit was handed on: it waits where a point table is prepared, else it
    /// is dealt with.
    pub open spec fn took(self, asdu: AsduView, computed: SampleView, now: Moment) -> (
        SessionState,
        SessionExit,
    ) {
        if self.home.prepared is Some {
            if self.deferred.len() >= MAX_DEFERRED_ASDUS {
                (
                    self.log(
                        now,
                        Direction::Internal,
                        Severity::Error,
                        LogCategory::Configuration,
                        "点表重载准备期间的业务 ASDU 缓冲已满，为避免语义混用已断开链路"@,
                    ),
                    SessionExit::Disconnect,
                )
            } else {
                (SessionState { deferred: self.deferred.push(asdu), ..self }, SessionExit::Stay)
            }
        } else {
            let (after, disconnect) = self.processed(asdu, computed, now);
            (
                after,
                if disconnect {
                    SessionExit::Disconnect
                } else {
                    SessionExit::Stay
                },
            )
        }
    }

    /// The first unit that waits is dealt with.
    pub open spec fn replayed(self, computed: SampleView, now: Moment) -> (
        SessionState,
        SessionExit,
    ) {
        if self.deferred.len() == 0 {
            (self, SessionExit::Stay)
        } else {
            let rest = SessionState { deferred: self.deferred.skip(1), ..self };
            let (after, disconnect) = rest.processed(self.deferred[0], computed, now);
            (
                after,
                if disconnect {
                    SessionExit::Disconnect
                } else {
                    SessionExit::Stay
                },
            )
        }
    }

    /// The first command that waits is due.
    pub open spec fn due(self, now: Moment) -> bool {
        self.delayed.len() > 0 && self.delayed[0].due <= now.tick_ms
    }

    /// The commands that are due are answered, one after the other, up to a
    /// failure.
    pub open spec fn flushed(self, now: Moment) -> (SessionState, Option<Seq<char>>)
        decreases self.delayed.len(),
    {
        if !self.due(now) {
            (self, None)
        } else {
            let first = self.delayed[0];
            let rest = SessionState { delayed: self.delayed.skip(1), ..self };
            let (after, error) = rest.completed(
                first.request,
                first.ioa,
                first.control_kind,
                first.desired,
                first.phase,
                false,
                now,
            );
            if error is Some || after.delayed.len() >= self.delayed.len() {
                (after, error)
            } else {
                after.flushed(now)
            }
        }
    }

    /// The clock moved on.
    pub open spec fn ticked(self, now: Moment) -> (SessionState, SessionExit) {
        let (flushed, error) = self.flushed(now);
        match error {
            Some(text) => (
                flushed.log(
                    now,
                    Direction::Internal,
                    Severity::Error,
                    LogCategory::Control,
                    "发送延迟控制回执失败: "@ + text,
                ),
                SessionExit::Disconnect,
            ),
            None => {
                let (link, ticked) = after_tick(flushed.link, now.tick_ms);
                let after = SessionState { link, ..flushed }.with_home(
                    flushed.home.with_desk(flushed.home.desk.transmit_all(ticked.replies)),
                );
                match ticked.outcome {
                    Ok(events) => (
                        after.with_home(
                            after.home.with_desk(after.home.desk.record_all(events, now)),
                        ),
                        SessionExit::Stay,
                    ),
                    Err(text) => (
                        after.log(
                            now,
                            Direction::Internal,
                            Severity::Error,
                            LogCategory::KeepAlive,
                            "采集链路计时器失败: "@ + text,
                        ),
                        SessionExit::Disconnect,
                    ),
                }
            },
        }
    }
}

proof fn lemma_completed_keeps_waiting(
    state: SessionState,
    request: AsduView,
    ioa: u32,
    kind: ControlKind,
    desired: SampleView,
    phase: ControlPhase,
    confirm_only: bool,
    now: Moment,
)
    ensures
        state.completed(request, ioa, kind, desired, phase, confirm_only, now).0.delayed
            == state.delayed,
        state.completed(request, ioa, kind, desired, phase, confirm_only, now).0.deferred
            == state.deferred,
{
}

impl CollectSession {
    /// Starts a session on a new connection.
    pub fn connect(home: CollectSide, config: LinkConfig, now: Moment) -> (result: CollectSession)
        ensures
            result@ == (SessionState {
                home: home@,
                link: LinkState::fresh(LinkRole::Server, config, now.tick_ms),
                delayed: Seq::empty(),
                deferred: Seq::empty(),
            }),
            result@.link.consistent(),
    {
        let result = CollectSession {
            home,
            link: LinkSession::new(LinkRole::Server, config, now.tick_ms),
            delayed: Vec::new(),
            deferred: VecDeque::new(),
        };
        assert(delayed_views(result.delayed@) =~= Seq::<DelayedView>::empty());
        assert(unit_views(result.deferred@) =~= Seq::<AsduView>::empty());
        result
    }

    /// What has to be computed before a request is dealt with.
    pub fn control_input(&self, request: &Asdu) -> (result: ControlInput)
        ensures
            result == input_of(self@.home.points, request@),
    {
        match demand(request) {
            Demand::Control { ioa, kind, asked: ControlRequest::Step(Some(up)), .. } => {
                match self.home.station.point(ioa, kind) {
                    Some(index) => {
                        let point = &self.home.station.points[index];
                        assert(point@ == self.home.station@[index as int]);
                        ControlInput::Stepped {
                            current: point.value.value,
                            step: point.config.step,
                            up,
                        }
                    },
                    None => ControlInput::Nothing,
                }
            },
            Demand::Setpoint { bits, .. } => ControlInput::Setpoint { bits },
            _ => ControlInput::Nothing,
        }
    }

    /// Takes in a frame of the other side.
    pub fn receive(&mut self, frame: Frame, computed: &Sample, now: Moment) -> (result: SessionExit)
        requires
            old(self)@.link.consistent(),
        ensures
            (final(self)@, result) == old(self)@.received(frame@, computed@, now),
            final(self)@.link.consistent(),
    {
        let processed = match self.link.process(frame, now.tick_ms) {
            Ok(processed) => processed,
            Err(text) => {
                let text = cat("采集链路处理失败: ".to_owned(), text.as_str());
                self.log(now, Direction::Internal, Severity::Error, LogCategory::Protocol, text);
                return SessionExit::Disconnect;
            },
        };
        self.home.desk.transmit_all(processed.replies);
        self.home.desk.record_all(processed.events, now);
        if let Some(phase) = processed.phase_changed {
            self.home.desk.enter(phase, phase.label().to_owned());
        }
        let asdu = match processed.asdu {
            Some(asdu) => asdu,
            None => {
                return SessionExit::Stay;
            },
        };
        if self.home.prepared.is_some() {
            if self.deferred.len() >= MAX_DEFERRED_ASDUS {
                self.log(
                    now,
                    Direction::Internal,
                    Severity::Error,
                    LogCategory::Configuration,
                    "点表重载准备期间的业务 ASDU 缓冲已满，为避免语义混用已断开链路".to_owned(),
                );
                return SessionExit::Disconnect;
            }
            let ghost before = self.deferred@;
            self.deferred.push_back(asdu);
            assert(unit_views(self.deferred@) =~= unit_views(before).push(asdu@));
            return SessionExit::Stay;
        }
        if self.process_business_asdu(asdu, computed, now) {
            SessionExit::Disconnect
        } else {
            SessionExit::Stay
        }
    }

    /// Deals with the first unit that waits for a point table.
    pub fn replay_deferred(&mut self, computed: &Sample, now: Moment) -> (result: SessionExit)
        requires
            old(self)@.link.consistent(),
        ensures
            (final(self)@, result) == old(self)@.replayed(computed@, now),
            final(self)@.link.consistent(),
    {
        let ghost before = self.deferred@;
        match self.deferred.pop_front() {
            None => {
                assert(unit_views(before).len() == 0);
                SessionExit::Stay
            },
            Some(asdu) => {
                assert(unit_views(self.deferred@) =~= unit_views(before).skip(1));
                assert(unit_views(before)[0] == asdu@);
                assert(unit_views(before).len() > 0);
                if self.process_business_asdu(asdu, computed, now) {
                    SessionExit::Disconnect
                } else {
                    SessionExit::Stay
                }
            },
        }
    }

    /// Answers the commands whose time has come.
    pub fn flush_delayed_controls(&mut self, now: Moment) -> (result: Result<(), String>)
        requires
            old(self)@.link.consistent(),
        ensures
            (final(self)@, error_view(result)) == old(self)@.flushed(now),
            final(self)@.link.consistent(),
    {
        let ghost target = self@.flushed(now);
        while self.delayed.len() > 0 && self.delayed[0].due <= now.tick_ms
            invariant
                self@.link.consistent(),
                self@.flushed(now) == target,
                target == old(self)@.flushed(now),
            ensures
                self@.link.consistent(),
                self@.flushed(now) == target,
                target == old(self)@.flushed(now),
                !self@.due(now),
            decreases self.delayed@.len(),
        {
            let ghost before = self@;
            assert(before.delayed[0] == self.delayed@[0]@);
            let first = self.delayed.remove(0);
            assert(delayed_views(self.delayed@) =~= before.delayed.skip(1));
            proof {
                lemma_completed_keeps_waiting(
                    self@,
                    first.request@,
                    first.ioa,
                    first.control_kind,
                    first.desired@,
                    first.phase,
                    false,
                    now,
                );
            }
            let ghost rest = self.delayed@.len();
            if let Err(text) = self.complete_success_control(
                &first.request,
                first.ioa,
                first.control_kind,
                first.desired,
                first.phase,
                false,
                now,
            ) {
                return Err(text);
            }
            assert(self@.delayed.len() == rest);
            assert(self.delayed@.len() == rest);
        }
        Ok(())
    }

    /// Answers delayed commands and looks at the timers.
    pub fn tick(&mut self, now: Moment) -> (result: SessionExit)
        requires
            old(self)@.link.consistent(),
        ensures
            (final(self)@, result) == old(self)@.ticked(now),
            final(self)@.link.consistent(),
    {
        if let Err(text) = self.flush_delayed_controls(now) {
            let text = cat("发送延迟控制回执失败: ".to_owned(), text.as_str());
            self.log(now, Direction::Internal, Severity::Error, LogCategory::Control, text);
            return SessionExit::Disconnect;
        }
        let ticked = self.link.tick(now.tick_ms);
        self.home.desk.transmit_all(ticked.replies);
        match ticked.outcome {
            Ok(events) => {
                self.home.desk.record_all(events, now);
                SessionExit::Stay
            },
            Err(text) => {
                let text = cat("采集链路计时器失败: ".to_owned(), text.as_str());
                self.log(now, Direction::Internal, Severity::Error, LogCategory::KeepAlive, text);
                SessionExit::Disconnect
            },
        }
    }
}

// ---------------------------------------------------------------------------
// Reports that the operator triggers.
/// The unit that announces the end of initialization.
pub open spec fn initialization_unit(common_address: u16, originator_address: u8) -> AsduView {
    AsduView {
        type_id: TypeId::M_EI_NA_1,
        cot: COT_INITIATED,
        originator_address,
        address_field: common_address,
        sequence: false,
        test: false,
        negative: false,
        objects: ObjectsView::Known(
            seq![
                InformationObject {
                    address: 0,
                    element: Element::InitializationEnd { changed: false, cause: 0 },
                },
            ],
        ),
    }
}

pub open spec fn upload_done_text(kind: UploadKind, count: nat) -> Seq<char> {
    if kind is CurrentValues {
        kind.label_text() + "完成，共上送 "@ + decimal(count) + " 个点，点值保持不变"@
    } else {
        kind.label_text() + "完成，共刷新 "@ + decimal(count) + " 个点"@
    }
}

/// The points are refreshed for a report.
pub open spec fn points_refreshed(
    kind: UploadKind,
    before: Seq<PointStateView>,
    drawn: Seq<SampleView>,
    now: u64,
    after: Seq<PointStateView>,
) -> bool {
    &&& after.len() == before.len()
    &&& forall|i: int|
        0 <= i < before.len() ==> refreshed_point(
            kind,
            before[i],
            drawn[i],
            now,
            #[trigger] after[i],
        )
}

/// After the units of a report were to be sent: only if all were do the points
/// take the values that were reported.
pub open spec fn after_report(
    before: SessionState,
    kind: UploadKind,
    count: nat,
    points: Seq<PointStateView>,
    units: Seq<AsduView>,
    now: Moment,
) -> (SessionState, Option<Seq<char>>) {
    let (sent, error) = before.send(units, now);
    if units.len() == 0 {
        (before, Some("没有生成任何 ASDU"@))
    } else if error is Some {
        (sent, error)
    } else {
        (
            sent.with_home(
                CollectState { points, ..sent.home }.show_values().log(
                    now,
                    Direction::Outgoing,
                    Severity::Success,
                    LogCategory::ActiveUpload,
                    upload_done_text(kind, count),
                ),
            ),
            None,
        )
    }
}

/// What a report that the operator triggers leads to.
pub open spec fn uploads(
    before: SessionState,
    kind: UploadKind,
    drawn: Seq<SampleView>,
    now: Moment,
    after: SessionState,
    error: Option<Seq<char>>,
) -> bool {
    let home = before.home;
    if !before.link.active() {
        after == before && error == Some(
            "链路状态 "@ + before.link.phase.label_text() + "，需要先完成 STARTDT"@,
        )
    } else if kind is InitializationEnd {
        (after, error) == before.send(
            seq![initialization_unit(home.common_address, home.originator_address)],
            now,
        )
    } else if selected_count(kind, home.points) == 0 {
        after == before && error == Some("点表中没有与该操作匹配的可上送点"@)
    } else {
        exists|points: Seq<PointStateView>, units: Result<Seq<AsduView>, Seq<char>>|
            {
                &&& points_refreshed(kind, home.points, drawn, now.wall_ms, points)
                &&& #[trigger] upload_units(
                    points,
                    kind,
                    spontaneous_header(home.common_address, home.originator_address),
                    units,
                )
                &&& match units {
                    Err(text) => after == before && error == Some(text),
                    Ok(units) => (after, error) == after_report(
                        before,
                        kind,
                        selected_count(kind, home.points),
                        points,
                        units,
                        now,
                    ),
                }
            }
    }
}

pub open spec fn drawn_views(drawn: Seq<Sample>) -> Seq<SampleView> {
    drawn.map_values(|sample: Sample| sample@)
}

impl CollectSession {
    /// Sends a report that the operator triggers. A float point takes the
    /// sample that was drawn for its position.
    pub fn handle_upload(&mut self, kind: UploadKind, drawn: &Vec<Sample>, now: Moment) -> (result:
        Result<(), String>)
        requires
            old(self)@.link.consistent(),
            sound_points(old(self)@.home.points),
            drawn@.len() == old(self)@.home.points.len(),
        ensures
            uploads(
                old(self)@,
                kind,
                drawn_views(drawn@),
                now,
                final(self)@,
                error_view(result),
            ),
            final(self)@.link.consistent(),
            sound_points(final(self)@.home.points),
    {
        if !self.link.is_active() {
            let text = cat("链路状态 ".to_owned(), self.link.phase().label());
            return Err(cat(text, "，需要先完成 STARTDT"));
        }
        let address: u16 = self.home.common_address;
        let originator: u8 = self.home.originator_address;
        if kind == UploadKind::InitializationEnd {
            let objects: Vec<InformationObject> = vec![
                InformationObject {
                    address: 0,
                    element: Element::InitializationEnd { changed: false, cause: 0 },
                },
            ];
            assert(objects@ =~= seq![
                InformationObject {
                    address: 0,
                    element: Element::InitializationEnd { changed: false, cause: 0 },
                },
            ]);
            let unit = make_asdu(
                TypeId::M_EI_NA_1,
                COT_INITIATED,
                address,
                originator,
                false,
                InformationObjects::Known(objects),
            );
            assert(unit@ == initialization_unit(address, originator));
            return self.send(one_unit(unit), now);
        }
        let ghost before = self@;
        let mut candidate = self.home.station.copy();
        let selected: usize = candidate.refresh(kind, drawn, now.wall_ms);
        if selected == 0 {
            return Err("点表中没有与该操作匹配的可上送点".to_owned());
        }
        proof {
            assert forall|i: int| 0 <= i < before.home.points.len() implies refreshed_point(
                kind,
                before.home.points[i],
                drawn_views(drawn@)[i],
                now.wall_ms,
                #[trigger] candidate@[i],
            ) by {}
            assert(points_refreshed(
                kind,
                before.home.points,
                drawn_views(drawn@),
                now.wall_ms,
                candidate@,
            ));
        }
        let frames = candidate.frames_for_upload(kind, address, originator);
        let ghost outcome = crate::protocol::station::units_result(frames);
        assert(upload_units(
            candidate@,
            kind,
            spontaneous_header(address, originator),
            outcome,
        ));
        let units = match frames {
            Ok(units) => units,
            Err(text) => {
                return Err(text);
            },
        };
        assert(unit_views(units@).len() == units@.len());
        if units.len() == 0 {
            return Err("没有生成任何 ASDU".to_owned());
        }
        if let Err(text) = self.send(units, now) {
            return Err(text);
        }
        self.home.station = candidate;
        self.home.show_values();
        let text = if kind == UploadKind::CurrentValues {
            let text = cat_number(
                cat(kind.label().to_owned(), "完成，共上送 "),
                selected as u64,
            );
            cat(text, " 个点，点值保持不变")
        } else {
            let text = cat_number(
                cat(kind.label().to_owned(), "完成，共刷新 "),
                selected as u64,
            );
            cat(text, " 个点")
        };
        self.log(now, Direction::Outgoing, Severity::Success, LogCategory::ActiveUpload, text);
        Ok(())
    }
}

// ---------------------------------------------------------------------------
// Commands of the operator.
impl CollectState {
    /// The operator set a value.
    pub open spec fn value_set(
        self,
        ioa: u32,
        type_id: Seq<char>,
        value: SampleView,
        now: Moment,
    ) -> CollectState {
        let (points, outcome) = after_set_value(self.points, ioa, type_id, value, now.wall_ms);
        match outcome {
            Ok(shown) => CollectState { points, ..self }.show_values().log(
                now,
                Direction::Internal,
                Severity::Success,
                LogCategory::Configuration,
                "手工修改采集点 "@ + type_id + "/IOA="@ + decimal(ioa as nat) + "，新值="@ + shown,
            ),
            Err(text) => self.log(
                now,
                Direction::Internal,
                Severity::Error,
                LogCategory::Configuration,
                "手工修改采集点失败: "@ + text,
            ),
        }
    }

    /// A point table waits to be committed.
    pub open spec fn preparing(
        self,
        generation: u64,
        points: Seq<crate::config::CollectPointView>,
        now: Moment,
    ) -> CollectState {
        CollectState {
            prepared: Some(
                (
                    generation,
                    points.map_values(
                        |config: crate::config::CollectPointView|
                            reconfigured_point(self.points, config, now.wall_ms),
                    ),
                ),
            ),
            ..self
        }
    }

    /// The point table that waits is put in place, where it is the one meant.
    pub open spec fn committing(self, generation: u64, now: Moment) -> (
        CollectState,
        Option<Seq<char>>,
    ) {
        match self.prepared {
            None => (self, Some("采集侧没有待提交的重载版本 "@ + decimal(generation as nat))),
            Some((waiting, points)) => if waiting != generation {
                (
                    self,
                    Some(
                        "采集侧待提交版本为 "@ + decimal(waiting as nat) + "，收到版本 "@ + decimal(
                            generation as nat,
                        ),
                    ),
                )
            } else {
                (
                    CollectState { points, prepared: None, ..self }.show_values().log(
                        now,
                        Direction::Internal,
                        Severity::Success,
                        LogCategory::Configuration,
                        "采集点表已提交重载版本 "@ + decimal(generation as nat),
                    ),
                    None,
                )
            },
        }
    }

    /// The point table that waits is the one meant.
    pub open spec fn awaits(self, generation: u64) -> bool {
        self.prepared matches Some((waiting, _)) && waiting == generation
    }

    pub open spec fn aborting(self, generation: u64) -> CollectState {
        if self.awaits(generation) {
            CollectState { prepared: None, ..self }
        } else {
            self
        }
    }

    pub open spec fn with_policy(self, policy: Option<FaultPolicy>) -> CollectState {
        CollectState { fault_policy: policy, ..self }.emit(EventView::FaultPolicyChanged(policy))
    }
}

/// A point can be set up: its range is one, and the initial value lies in it.
pub open spec fn sound_config(point: crate::config::CollectPointView) -> bool {
    sound_range(point) && point.initial.value.within(point.min.value, point.max.value)
}

/// The points of a table can be set up.
pub open spec fn sound_configs(points: Seq<crate::config::CollectPointView>) -> bool {
    forall|i: int| 0 <= i < points.len() ==> sound_config(#[trigger] points[i])
}

impl CollectSide {
    pub fn new(
        settings: &CollectSettings,
        originator_address: u8,
        points: Vec<CollectPointConfig>,
        now: Moment,
    ) -> (result: CollectSide)
        ensures
            result.common_address == settings.common_address,
            result.fault_delay_ms == settings.fault_delay_ms,
            result.originator_address == originator_address,
            result@.points == crate::config::collect_views(points@).map_values(
                |config: crate::config::CollectPointView|
                    PointStateView::fresh(config, now.wall_ms),
            ),
            result@.fault_policy is None,
            result@.prepared is None,
            result@.desk.side is Collect,
            result@.desk.view.phase is Listening,
            result@.desk.view.endpoint == endpoint_text(
                settings.bind_host@,
                settings.bind_port,
            ),
            result@.desk.outputs == seq![
                OutputView::Event(EventView::CollectValues(station_rows(result@.points))),
                OutputView::Event(
                    EventView::Connection { side: Side::Collect, view: result@.desk.view },
                ),
            ],
    {
        let endpoint = endpoint(settings.bind_host.as_str(), settings.bind_port);
        let view = ConnectionView::new(ConnectionPhase::Listening, endpoint);
        let mut side = CollectSide {
            common_address: settings.common_address,
            fault_delay_ms: settings.fault_delay_ms,
            originator_address,
            station: Station::new(points, now.wall_ms),
            fault_policy: None,
            prepared: None,
            desk: Desk::new(Side::Collect, view),
        };
        side.show_values();
        side.desk.show();
        assert(side@.desk.outputs =~= seq![
            OutputView::Event(EventView::CollectValues(station_rows(side@.points))),
            OutputView::Event(
                EventView::Connection { side: Side::Collect, view: side@.desk.view },
            ),
        ]);
        side
    }

    /// Sets a value at the wish of the operator.
    pub fn update_station_value(&mut self, ioa: u32, type_id: &str, value: Sample, now: Moment)
        ensures
            final(self)@ == old(self)@.value_set(ioa, type_id@, value@, now),
    {
        match self.station.set_value(ioa, type_id, value, now.wall_ms) {
            Ok(shown) => {
                self.show_values();
                let text = cat(cat("手工修改采集点 ".to_owned(), type_id), "/IOA=");
                let text = cat(cat_number(text, ioa as u64), "，新值=");
                let text = cat(text, shown.as_str());
                self.desk.log(
                    now,
                    Direction::Internal,
                    Severity::Success,
                    LogCategory::Configuration,
                    text,
                );
            },
            Err(text) => {
                let text = cat("手工修改采集点失败: ".to_owned(), text.as_str());
                self.desk.log(
                    now,
                    Direction::Internal,
                    Severity::Error,
                    LogCategory::Configuration,
                    text,
                );
            },
        }
    }

    fn prepare(&mut self, generation: u64, points: Vec<CollectPointConfig>, now: Moment)
        ensures
            final(self)@ == old(self)@.preparing(
                generation,
                crate::config::collect_views(points@),
                now,
            ),
    {
        let station = self.station.reconfigured(points, now.wall_ms);
        self.prepared = Some((generation, station));
        assert(self@.prepared =~= old(self)@.preparing(
            generation,
            crate::config::collect_views(points@),
            now,
        ).prepared);
    }

    /// Puts a prepared point table in place.
    pub fn commit_station_reload(&mut self, generation: u64, now: Moment) -> (result: Result<
        (),
        String,
    >)
        ensures
            (final(self)@, error_view(result)) == old(self)@.committing(generation, now),
    {
        match self.prepared.take() {
            None => Err(cat_number("采集侧没有待提交的重载版本 ".to_owned(), generation)),
            Some((waiting, fresh)) => {
                if waiting != generation {
                    self.prepared = Some((waiting, fresh));
                    let text = cat_number("采集侧待提交版本为 ".to_owned(), waiting);
                    return Err(cat_number(cat(text, "，收到版本 "), generation));
                }
                self.station = fresh;
                self.show_values();
                self.desk.log(
                    now,
                    Direction::Internal,
                    Severity::Success,
                    LogCategory::Configuration,
                    cat_number("采集点表已提交重载版本 ".to_owned(), generation),
                );
                Ok(())
            },
        }
    }

    /// Drops a prepared point table, where it is the one meant.
    pub fn abort_prepared_reload(&mut self, generation: u64) -> (result: bool)
        ensures
            result == old(self)@.awaits(generation),
            final(self)@ == old(self)@.aborting(generation),
    {
        let matching = match &self.prepared {
            Some((waiting, _)) => *waiting == generation,
            None => false,
        };
        if matching {
            self.prepared = None;
        }
        matching
    }

    fn set_policy(&mut self, policy: Option<FaultPolicy>)
        ensures
            final(self)@ == old(self)@.with_policy(policy),
    {
        self.fault_policy = policy;
        self.desk.emit(RuntimeEvent::FaultPolicyChanged(policy));
    }
}

/// What a command leads to: a reply to a reload, and whether the reload is
/// over.
#[derive(Debug)]
pub struct CommandResult {
    pub reply: Option<Result<(), String>>,
    pub resolved: bool,
}

pub open spec fn reply_view(reply: Option<Result<(), String>>) -> Option<Option<Seq<char>>> {
    match reply {
        Some(result) => Some(error_view(result)),
        None => None,
    }
}

impl CollectState {
    /// A command came while no peer is connected; the reply to a reload.
    pub open spec fn commanded(self, command: CollectCommand, now: Moment) -> (
        CollectState,
        Option<Option<Seq<char>>>,
    ) {
        match command {
            CollectCommand::SetFaultPolicy(policy) => (self.with_policy(policy), None),
            CollectCommand::SetPointValue { ioa, type_id, value } => (
                self.value_set(ioa, type_id@, value@, now),
                None,
            ),
            CollectCommand::PrepareReload { generation, points } => (
                self.preparing(generation, crate::config::collect_views(points@), now),
                Some(None),
            ),
            CollectCommand::CommitReload { generation } => {
                let (after, error) = self.committing(generation, now);
                (after, Some(error))
            },
            CollectCommand::AbortReload(generation) => (self.aborting(generation), None),
            CollectCommand::Upload(kind) => (
                self.log(
                    now,
                    Direction::Internal,
                    Severity::Warning,
                    LogCategory::ActiveUpload,
                    kind.label_text() + "失败：采集链路尚未连接"@,
                ),
                None,
            ),
        }
    }
}

impl CollectSide {
    /// Carries out a command while no peer is connected.
    pub fn command(&mut self, command: CollectCommand, now: Moment) -> (result: Option<
        Result<(), String>,
    >)
        ensures
            (final(self)@, reply_view(result)) == old(self)@.commanded(command, now),
    {
        match command {
            CollectCommand::SetFaultPolicy(policy) => {
                self.set_policy(policy);
                None
            },
            CollectCommand::SetPointValue { ioa, type_id, value } => {
                self.update_station_value(ioa, type_id.as_str(), value, now);
                None
            },
            CollectCommand::PrepareReload { generation, points } => {
                self.prepare(generation, points, now);
                Some(Ok(()))
            },
            CollectCommand::CommitReload { generation } => Some(
                self.commit_station_reload(generation, now),
            ),
            CollectCommand::AbortReload(generation) => {
                let _ = self.abort_prepared_reload(generation);
                None
            },
            CollectCommand::Upload(kind) => {
                let text = cat(kind.label().to_owned(), "失败：采集链路尚未连接");
                self.desk.log(
                    now,
                    Direction::Internal,
                    Severity::Warning,
                    LogCategory::ActiveUpload,
                    text,
                );
                None
            },
        }
    }
}

impl SessionState {
    pub open spec fn policy_text(policy: Option<FaultPolicy>) -> Seq<char> {
        match policy {
            None => "已清除一次性采集控制响应策略"@,
            Some(policy) => "已设置："@ + policy.label_text(),
        }
    }

    /// A command came while a peer is connected: the reply to a reload, and
    /// whether the reload is over.
    pub open spec fn commanded(
        self,
        command: CollectCommand,
        drawn: Seq<SampleView>,
        now: Moment,
        after: SessionState,
        reply: Option<Option<Seq<char>>>,
        resolved: bool,
    ) -> bool {
        match command {
            CollectCommand::SetFaultPolicy(policy) => {
                &&& after == self.with_home(
                    self.home.with_policy(policy).log(
                        now,
                        Direction::Internal,
                        Severity::Warning,
                        LogCategory::Control,
                        SessionState::policy_text(policy),
                    ),
                )
                &&& reply is None && !resolved
            },
            CollectCommand::SetPointValue { ioa, type_id, value } => {
                &&& after == self.with_home(self.home.value_set(ioa, type_id@, value@, now))
                &&& reply is None && !resolved
            },
            CollectCommand::PrepareReload { generation, points } => {
                &&& !resolved
                &&& if self.delayed.len() == 0 {
                    after == self.with_home(
                        self.home.preparing(
                            generation,
                            crate::config::collect_views(points@),
                            now,
                        ),
                    ) && reply == Some(None::<Seq<char>>)
                } else {
                    after == self && reply == Some(
                        Some(
                            "采集侧有 "@ + decimal(self.delayed.len())
                                + " 条延迟控制回执未完成"@,
                        ),
                    )
                }
            },
            CollectCommand::CommitReload { generation } => if self.delayed.len() == 0 {
                let (home, error) = self.home.committing(generation, now);
                after == self.with_home(home) && reply == Some(error) && resolved == (error is None)
            } else {
                after == self && !resolved && reply == Some(
                    Some(
                        "采集侧提交时仍有 "@ + decimal(self.delayed.len())
                            + " 条延迟控制回执未完成"@,
                    ),
                )
            },
            CollectCommand::AbortReload(generation) => {
                &&& after == self.with_home(self.home.aborting(generation))
                &&& reply is None
                &&& resolved == self.home.awaits(generation)
            },
            CollectCommand::Upload(kind) => {
                &&& reply is None && !resolved
                &&& exists|mid: SessionState, error: Option<Seq<char>>| #[trigger]
                    uploads(self, kind, drawn, now, mid, error) && after == (match error {
                        None => mid,
                        Some(text) => mid.log(
                            now,
                            Direction::Internal,
                            Severity::Error,
                            LogCategory::ActiveUpload,
                            kind.label_text() + "失败: "@ + text,
                        ),
                    })
            },
        }
    }
}

impl CollectSession {
    /// Carries out a command while a peer is connected. A float point that is
    /// refreshed takes the sample that was drawn for its position.
    pub fn command(&mut self, command: CollectCommand, drawn: &Vec<Sample>, now: Moment) -> (result:
        CommandResult)
        requires
            old(self)@.link.consistent(),
            sound_points(old(self)@.home.points),
            drawn@.len() == old(self)@.home.points.len(),
        ensures
            old(self)@.commanded(
                command,
                drawn_views(drawn@),
                now,
                final(self)@,
                reply_view(result.reply),
                result.resolved,
            ),
            final(self)@.link.consistent(),
            old(self)@.sound() && (command matches CollectCommand::PrepareReload { points, .. }
                ==> sound_configs(crate::config::collect_views(points@))) ==> final(self)@.sound(),
    {
        let ghost command_given = command;
        let result = self.carry_out(command, drawn, now);
        proof {
            if old(self)@.sound() && (command_given matches CollectCommand::PrepareReload {
                points,
                ..
            } ==> sound_configs(crate::config::collect_views(points@))) {
                law_commands_keep_points_sound(
                    old(self)@,
                    command_given,
                    drawn_views(drawn@),
                    now,
                    self@,
                    reply_view(result.reply),
                    result.resolved,
                );
            }
        }
        result
    }

    fn carry_out(&mut self, command: CollectCommand, drawn: &Vec<Sample>, now: Moment) -> (result:
        CommandResult)
        requires
            old(self)@.link.consistent(),
            sound_points(old(self)@.home.points),
            drawn@.len() == old(self)@.home.points.len(),
        ensures
            old(self)@.commanded(
                command,
                drawn_views(drawn@),
                now,
                final(self)@,
                reply_view(result.reply),
                result.resolved,
            ),
            final(self)@.link.consistent(),
    {
        match command {
            CollectCommand::SetFaultPolicy(policy) => {
                self.home.set_policy(policy);
                let text = match policy {
                    None => "已清除一次性采集控制响应策略".to_owned(),
                    Some(policy) => cat("已设置：".to_owned(), policy.label()),
                };
                self.log(now, Direction::Internal, Severity::Warning, LogCategory::Control, text);
                CommandResult { reply: None, resolved: false }
            },
            CollectCommand::SetPointValue { ioa, type_id, value } => {
                self.home.update_station_value(ioa, type_id.as_str(), value, now);
                CommandResult { reply: None, resolved: false }
            },
            CollectCommand::PrepareReload { generation, points } => {
                assert(self@.delayed.len() == self.delayed@.len());
                if self.delayed.len() == 0 {
                    self.home.prepare(generation, points, now);
                    CommandResult { reply: Some(Ok(())), resolved: false }
                } else {
                    let text = cat_number("采集侧有 ".to_owned(), self.delayed.len() as u64);
                    CommandResult {
                        reply: Some(Err(cat(text, " 条延迟控制回执未完成"))),
                        resolved: false,
                    }
                }
            },
            CollectCommand::CommitReload { generation } => {
                assert(self@.delayed.len() == self.delayed@.len());
                if self.delayed.len() == 0 {
                    let result = self.home.commit_station_reload(generation, now);
                    let resolved = result.is_ok();
                    CommandResult { reply: Some(result), resolved }
                } else {
                    let text = cat_number(
                        "采集侧提交时仍有 ".to_owned(),
                        self.delayed.len() as u64,
                    );
                    CommandResult {
                        reply: Some(Err(cat(text, " 条延迟控制回执未完成"))),
                        resolved: false,
                    }
                }
            },
            CollectCommand::AbortReload(generation) => {
                let resolved = self.home.abort_prepared_reload(generation);
                CommandResult { reply: None, resolved }
            },
            CollectCommand::Upload(kind) => {
                let result = self.handle_upload(kind, drawn, now);
                let ghost mid = self@;
                assert(uploads(
                    old(self)@,
                    kind,
                    drawn_views(drawn@),
                    now,
                    mid,
                    error_view(result),
                ));
                if let Err(text) = result {
                    let text = cat(cat(kind.label().to_owned(), "失败: "), text.as_str());
                    self.log(
                        now,
                        Direction::Internal,
                        Severity::Error,
                        LogCategory::ActiveUpload,
                        text,
                    );
                }
                CommandResult { reply: None, resolved: false }
            },
        }
    }
}

// ---------------------------------------------------------------------------
// Listening for a peer.
impl CollectState {
    pub open spec fn with_peer(
        self,
        phase: ConnectionPhase,
        peer: Option<Seq<char>>,
        detail: Seq<char>,
    ) -> CollectState {
        let desk = self.desk;
        let view = crate::model::ConnectionState { phase, peer, detail, ..desk.view };
        self.with_desk(DeskState { view, ..desk }.show())
    }

    /// The address cannot be listened on.
    pub open spec fn listen_failed(self, reason: Seq<char>, now: Moment) -> CollectState {
        let shown = self.with_desk(
            self.desk.enter(ConnectionPhase::Error, "监听失败: "@ + reason),
        );
        shown.log(
            now,
            Direction::Internal,
            Severity::Error,
            LogCategory::Connection,
            "采集侧监听 "@ + self.desk.view.endpoint + " 失败: "@ + reason,
        )
    }

    /// A peer connected.
    pub open spec fn accepted(self, peer: Seq<char>, now: Moment) -> CollectState {
        self.with_peer(
            ConnectionPhase::ConnectedStopped,
            Some(peer),
            "等待主站 STARTDT"@,
        ).log(
            now,
            Direction::Incoming,
            Severity::Success,
            LogCategory::Connection,
            "采集主站 "@ + peer + " 已建立 TCP 连接，等待 STARTDT"@,
        )
    }
}

impl CollectSide {
    fn show_peer(&mut self, phase: ConnectionPhase, peer: Option<String>, detail: String)
        ensures
            final(self)@ == old(self)@.with_peer(
                phase,
                crate::model::text_view(peer),
                detail@,
            ),
    {
        self.desk.view.phase = phase;
        self.desk.view.peer = peer;
        self.desk.view.detail = detail;
        self.desk.show();
    }

    pub fn listen_failed(&mut self, reason: &str, now: Moment)
        ensures
            final(self)@ == old(self)@.listen_failed(reason@, now),
    {
        self.desk.enter(ConnectionPhase::Error, cat("监听失败: ".to_owned(), reason));
        let text = cat("采集侧监听 ".to_owned(), self.desk.view.endpoint.as_str());
        let text = cat(cat(text, " 失败: "), reason);
        self.desk.log(now, Direction::Internal, Severity::Error, LogCategory::Connection, text);
    }

    pub fn listening(&mut self, now: Moment)
        ensures
            final(self)@ == old(self)@.log(
                now,
                Direction::Internal,
                Severity::Success,
                LogCategory::Connection,
                "采集侧正在监听 "@ + old(self)@.desk.view.endpoint,
            ),
    {
        let text = cat("采集侧正在监听 ".to_owned(), self.desk.view.endpoint.as_str());
        self.desk.log(now, Direction::Internal, Severity::Success, LogCategory::Connection, text);
    }

    pub fn accept(&mut self, peer: String, now: Moment)
        ensures
            final(self)@ == old(self)@.accepted(peer@, now),
    {
        let text = cat("采集主站 ".to_owned(), peer.as_str());
        let text = cat(text, " 已建立 TCP 连接，等待 STARTDT");
        self.show_peer(
            ConnectionPhase::ConnectedStopped,
            Some(peer),
            "等待主站 STARTDT".to_owned(),
        );
        self.desk.log(now, Direction::Incoming, Severity::Success, LogCategory::Connection, text);
    }

    pub fn accept_failed(&mut self, reason: &str, now: Moment)
        ensures
            final(self)@ == old(self)@.log(
                now,
                Direction::Internal,
                Severity::Error,
                LogCategory::Connection,
                "接受采集连接失败: "@ + reason@,
            ),
    {
        let text = cat("接受采集连接失败: ".to_owned(), reason);
        self.desk.log(now, Direction::Internal, Severity::Error, LogCategory::Connection, text);
    }

    /// The connection could not be told to send without delay.
    pub fn delay_kept(&mut self, reason: &str, now: Moment)
        ensures
            final(self)@ == old(self)@.log(
                now,
                Direction::Internal,
                Severity::Warning,
                LogCategory::Connection,
                "设置 TCP_NODELAY 失败: "@ + reason@,
            ),
    {
        let text = cat("设置 TCP_NODELAY 失败: ".to_owned(), reason);
        self.desk.log(now, Direction::Internal, Severity::Warning, LogCategory::Connection, text);
    }

    /// The peer is gone.
    pub fn session_ended(&mut self)
        ensures
            final(self)@ == old(self)@.with_peer(
                ConnectionPhase::Listening,
                None,
                "等待采集主站连接"@,
            ),
    {
        self.show_peer(ConnectionPhase::Listening, None, "等待采集主站连接".to_owned());
    }

    pub fn stop(&mut self)
        ensures
            final(self)@ == old(self)@.with_peer(
                ConnectionPhase::Disabled,
                None,
                "采集侧任务已停止"@,
            ),
    {
        self.show_peer(ConnectionPhase::Disabled, None, "采集侧任务已停止".to_owned());
    }
}

impl CollectSession {
    /// The connection could not be read any more.
    pub fn read_failed(&mut self, peer: &str, reason: &str, now: Moment)
        ensures
            final(self)@ == old(self)@.log(
                now,
                Direction::Incoming,
                Severity::Warning,
                LogCategory::Connection,
                "采集连接 "@ + peer@ + " 已结束: "@ + reason@,
            ),
    {
        let text = cat(cat("采集连接 ".to_owned(), peer), " 已结束: ");
        let text = cat(text, reason);
        self.log(now, Direction::Incoming, Severity::Warning, LogCategory::Connection, text);
    }
}

// ---------------------------------------------------------------------------
// Laws of the collecting side.
/// A session is in the middle of a request: everything but what it sends and
/// logs, and the link, is as it was.
pub open spec fn only_sends(before: SessionState, after: SessionState) -> bool {
    &&& after.home.points == before.home.points
    &&& after.home.prepared == before.home.prepared
    &&& after.home.common_address == before.home.common_address
    &&& after.delayed == before.delayed
    &&& after.deferred == before.deferred
}

/// A command changes the value of its target only where it is executed, its
/// confirmation and termination were sent and no policy or point setting asks
/// for anything but success.
pub proof fn law_only_success_changes_a_value(
    state: SessionState,
    control: ControlView,
    computed: SampleView,
    now: Moment,
)
    ensures
        ({
            let (after, outcome) = state.controlled(control, computed, now);
            let goal = control_outcome(
                state.home.points,
                control.ioa,
                control.kind,
                control.asked,
                computed,
            );
            let index = position(state.home.points, control_target(control.ioa, control.kind));
            &&& goal is Err || control.phase is Select || outcome is Err ==> after.home.points
                == state.home.points
            &&& after.home.points != state.home.points ==> {
                &&& goal is Ok
                &&& index is Some
                &&& after.home.points == state.home.points.update(
                    index->0,
                    (PointStateView {
                        value: goal->Ok_0,
                        updated_ms: now.wall_ms,
                        ..state.home.points[index->0]
                    }),
                )
            }
            &&& (state.home.fault_policy matches Some(policy) && policy.applies(control.phase)
                && policy !is Success) ==> after.home.points == state.home.points
        }),
{
    crate::protocol::station::lemma_position(
        state.home.points,
        control_target(control.ioa, control.kind),
    );
}

/// A policy is used up by the first command that it applies to and that has a
/// target, and by nothing else.
pub proof fn law_policy_is_used_once(
    state: SessionState,
    control: ControlView,
    computed: SampleView,
    now: Moment,
)
    ensures
        ({
            let (after, _) = state.controlled(control, computed, now);
            let goal = control_outcome(
                state.home.points,
                control.ioa,
                control.kind,
                control.asked,
                computed,
            );
            after.home.fault_policy == (if goal is Ok && (state.home.fault_policy matches Some(
                policy,
            ) && policy.applies(control.phase)) {
                None
            } else {
                state.home.fault_policy
            })
        }),
{
}

/// A request for another station is refused as such and changes nothing; one
/// for this station or for all is dealt with.
pub proof fn law_foreign_requests_are_refused(
    state: SessionState,
    request: AsduView,
    computed: SampleView,
    now: Moment,
)
    requires
        request.address_field != state.home.common_address,
        request.address_field != u16::MAX,
    ensures
        state.handled(request, computed, now) == state.reply(
            seq![state.answer(request, COT_UNKNOWN_ASDU_ADDRESS, true)],
            now,
        ),
        only_sends(state, state.handled(request, computed, now).0),
{
}

/// While a point table is prepared no unit is dealt with: each one waits, in
/// the order in which they came.
pub proof fn law_units_wait_for_a_prepared_table(
    state: SessionState,
    asdu: AsduView,
    computed: SampleView,
    now: Moment,
)
    requires
        state.home.prepared is Some,
        state.deferred.len() < MAX_DEFERRED_ASDUS,
    ensures
        state.took(asdu, computed, now) == (
            (SessionState { deferred: state.deferred.push(asdu), ..state }),
            SessionExit::Stay,
        ),
{
}

/// A prepared table takes effect only when it is committed under its own
/// generation; preparing and dropping it leave the points as they were, and
/// nothing but the points changes with it.
pub proof fn law_reload_in_two_steps(
    state: CollectState,
    generation: u64,
    other: u64,
    points: Seq<crate::config::CollectPointView>,
    now: Moment,
)
    requires
        other != generation,
    ensures
        ({
            let prepared = state.preparing(generation, points, now);
            let (committed, error) = prepared.committing(generation, now);
            &&& prepared.points == state.points
            &&& prepared.aborting(generation).points == state.points
            &&& prepared.aborting(generation).prepared is None
            &&& prepared.aborting(other) == prepared
            &&& prepared.committing(other, now).0 == prepared
            &&& prepared.committing(other, now).1 is Some
            &&& error is None
            &&& committed.prepared is None
            &&& committed.points == points.map_values(
                |config: crate::config::CollectPointView|
                    reconfigured_point(state.points, config, now.wall_ms),
            )
            &&& committed.common_address == state.common_address
            &&& committed.fault_delay_ms == state.fault_delay_ms
            &&& committed.originator_address == state.originator_address
            &&& committed.fault_policy == state.fault_policy
            &&& committed.desk.view == state.desk.view
        }),
{
}

/// No report is sent before the transfer is started.
pub proof fn law_reports_need_an_active_link(
    before: SessionState,
    kind: UploadKind,
    drawn: Seq<SampleView>,
    now: Moment,
    after: SessionState,
    error: Option<Seq<char>>,
)
    requires
        uploads(before, kind, drawn, now, after, error),
        !before.link.active(),
    ensures
        after == before,
        error is Some,
{
}

/// A value that the operator sets is shown and logged, and nothing is sent.
pub proof fn law_setting_a_value_sends_nothing(
    state: CollectState,
    ioa: u32,
    type_id: Seq<char>,
    value: SampleView,
    now: Moment,
)
    ensures
        ({
            let before = state.desk.outputs;
            let after = state.value_set(ioa, type_id, value, now).desk.outputs;
            &&& before.len() < after.len()
            &&& after.take(before.len() as int) == before
            &&& forall|i: int|
                before.len() <= i < after.len() ==> (#[trigger] after[i]) is Event
        }),
{
    let before = state.desk.outputs;
    let after = state.value_set(ioa, type_id, value, now).desk.outputs;
    assert(after.take(before.len() as int) =~= before);
}

/// A failed report leaves the values as they were.
pub proof fn law_failed_report_changes_no_value(
    before: SessionState,
    kind: UploadKind,
    drawn: Seq<SampleView>,
    now: Moment,
    after: SessionState,
    error: Option<Seq<char>>,
)
    requires
        uploads(before, kind, drawn, now, after, error),
        error is Some,
    ensures
        after.home.points == before.home.points,
{
}

impl CollectState {
    /// The points are sound, and so are those that wait to be committed.
    pub open spec fn sound(self) -> bool {
        sound_points(self.points) && (self.prepared matches Some((_, points)) ==> sound_points(
            points,
        ))
    }
}

/// A value lies in the range of the control target that it is for.
pub open spec fn admits(
    points: Seq<PointStateView>,
    ioa: u32,
    kind: ControlKind,
    desired: SampleView,
) -> bool {
    position(points, control_target(ioa, kind)) matches Some(index) ==> desired.value.within(
        points[index].config.min.value,
        points[index].config.max.value,
    )
}

impl SessionState {
    /// The points are sound, and the values of the commands that wait lie in
    /// the ranges of their targets.
    pub open spec fn sound(self) -> bool {
        &&& self.home.sound()
        &&& forall|i: int|
            0 <= i < self.delayed.len() ==> #[trigger] admits(
                self.home.points,
                self.delayed[i].ioa,
                self.delayed[i].control_kind,
                self.delayed[i].desired,
            )
    }
}

/// What a control target admits rests on the settings of the points alone.
proof fn lemma_admits_by_settings(
    before: Seq<PointStateView>,
    after: Seq<PointStateView>,
    ioa: u32,
    kind: ControlKind,
    desired: SampleView,
)
    requires
        before.len() == after.len(),
        forall|i: int| 0 <= i < before.len() ==> (#[trigger] after[i]).config == before[i].config,
        admits(before, ioa, kind, desired),
    ensures
        admits(after, ioa, kind, desired),
{
    let picks = control_target(ioa, kind);
    crate::protocol::station::lemma_position(before, picks);
    crate::protocol::station::lemma_position(after, picks);
    assert forall|i: int| 0 <= i < before.len() implies picks(#[trigger] after[i]) == picks(
        before[i],
    ) by {}
    if let Some(index) = position(after, picks) {
        assert(picks(before[index]));
        let first = position(before, picks)->0;
        assert(picks(after[first]));
        assert(first == index);
    }
}

/// Points that change their values alone stay sound where the new values lie in
/// the ranges, and so do the commands that wait.
proof fn lemma_new_values_keep_sound(before: SessionState, after: SessionState)
    requires
        before.sound(),
        after.delayed == before.delayed,
        after.home.prepared == before.home.prepared,
        after.home.points.len() == before.home.points.len(),
        forall|i: int|
            0 <= i < before.home.points.len() ==> (#[trigger] after.home.points[i]).config
                == before.home.points[i].config,
        sound_points(after.home.points),
    ensures
        after.sound(),
{
    assert forall|i: int| 0 <= i < after.delayed.len() implies #[trigger] admits(
        after.home.points,
        after.delayed[i].ioa,
        after.delayed[i].control_kind,
        after.delayed[i].desired,
    ) by {
        let waiting = before.delayed[i];
        assert(admits(before.home.points, waiting.ioa, waiting.control_kind, waiting.desired));
        lemma_admits_by_settings(
            before.home.points,
            after.home.points,
            waiting.ioa,
            waiting.control_kind,
            waiting.desired,
        );
    }
}

proof fn lemma_committed_keeps_sound(
    state: SessionState,
    ioa: u32,
    kind: ControlKind,
    desired: SampleView,
    now: Moment,
)
    requires
        state.sound(),
        admits(state.home.points, ioa, kind, desired),
    ensures
        state.committed(ioa, kind, desired, now).0.sound(),
{
    crate::protocol::station::lemma_position(state.home.points, control_target(ioa, kind));
    if let Some(index) = position(state.home.points, control_target(ioa, kind)) {
        let committed = state.committed(ioa, kind, desired, now).0;
        let after = committed.home.points;
        assert forall|i: int| 0 <= i < after.len() implies (#[trigger] after[i]).sound() by {
            assert(state.home.points[i].sound());
        }
        lemma_new_values_keep_sound(state, committed);
    }
}

proof fn lemma_completed_keeps_sound(
    state: SessionState,
    request: AsduView,
    ioa: u32,
    kind: ControlKind,
    desired: SampleView,
    phase: ControlPhase,
    confirm_only: bool,
    now: Moment,
)
    requires
        state.sound(),
        admits(state.home.points, ioa, kind, desired),
    ensures
        state.completed(request, ioa, kind, desired, phase, confirm_only, now).0.sound(),
{
    let (confirmed, error) = state.send(
        seq![state.answer(request, COT_ACTIVATION_CONFIRMATION, false)],
        now,
    );
    lemma_new_values_keep_sound(state, confirmed);
    if !(error is Some || phase is Select || confirm_only) {
        let (terminated, _) = confirmed.send(
            seq![state.answer(request, COT_ACTIVATION_TERMINATION, false)],
            now,
        );
        lemma_new_values_keep_sound(confirmed, terminated);
        lemma_committed_keeps_sound(terminated, ioa, kind, desired, now);
    }
}

proof fn lemma_delay_keeps_sound(
    state: SessionState,
    control: ControlView,
    desired: SampleView,
    delay_ms: u64,
    now: Moment,
)
    requires
        state.sound(),
        admits(state.home.points, control.ioa, control.kind, desired),
    ensures
        state.delay(control, desired, delay_ms, now).sound(),
{
    let after = state.delay(control, desired, delay_ms, now);
    let effective = if delay_ms == 0 {
        state.home.fault_delay_ms
    } else {
        delay_ms
    };
    let waiting = DelayedView {
        due: saturated_sum(now.tick_ms, effective),
        request: control.request,
        ioa: control.ioa,
        control_kind: control.kind,
        desired,
        phase: control.phase,
    };
    let pushed = state.delayed.push(waiting);
    crate::order::lemma_sorting_keeps_items(pushed, by_due());
    assert(after.delayed == sorted_by(pushed, by_due()));
    assert forall|i: int| 0 <= i < after.delayed.len() implies #[trigger] admits(
        after.home.points,
        after.delayed[i].ioa,
        after.delayed[i].control_kind,
        after.delayed[i].desired,
    ) by {
        let item = after.delayed[i];
        assert(after.delayed.contains(item));
        assert(pushed.contains(item));
        let place = choose|j: int| 0 <= j < pushed.len() && pushed[j] == item;
        if place < state.delayed.len() {
            assert(admits(
                state.home.points,
                state.delayed[place].ioa,
                state.delayed[place].control_kind,
                state.delayed[place].desired,
            ));
        }
    }
}

/// Whatever frame comes in, the points stay sound.
pub proof fn law_frames_keep_points_sound(
    state: SessionState,
    frame: FrameView,
    computed: SampleView,
    now: Moment,
)
    requires
        state.sound(),
    ensures
        state.received(frame, computed, now).0.sound(),
{
    let (link, outcome) = after_frame(state.link, frame, now.tick_ms);
    if let Ok(processed) = outcome {
        let recorded = state.home.desk.transmit_all(processed.replies).record_all(
            processed.events,
            now,
        );
        let shown = match processed.phase_changed {
            Some(phase) => recorded.enter(phase, phase.label_text()),
            None => recorded,
        };
        let ready = SessionState { link, ..state }.with_home(state.home.with_desk(shown));
        lemma_new_values_keep_sound(state, ready);
        if let Some(asdu) = processed.asdu {
            lemma_took_keeps_sound(ready, asdu, computed, now);
        }
    } else {
        lemma_new_values_keep_sound(state, state.received(frame, computed, now).0);
    }
}

/// Whatever the other side asks for, the points stay sound.
pub proof fn law_requests_keep_points_sound(
    state: SessionState,
    request: AsduView,
    computed: SampleView,
    now: Moment,
)
    requires
        state.sound(),
    ensures
        state.processed(request, computed, now).0.sound(),
        state.took(request, computed, now).0.sound(),
        state.replayed(computed, now).0.sound(),
{
    lemma_took_keeps_sound(state, request, computed, now);
    if state.deferred.len() > 0 {
        let rest = SessionState { deferred: state.deferred.skip(1), ..state };
        lemma_new_values_keep_sound(state, rest);
        lemma_took_keeps_sound(rest, state.deferred[0], computed, now);
    }
}

proof fn lemma_took_keeps_sound(
    state: SessionState,
    request: AsduView,
    computed: SampleView,
    now: Moment,
)
    requires
        state.sound(),
    ensures
        state.processed(request, computed, now).0.sound(),
        state.took(request, computed, now).0.sound(),
{
    lemma_handled_keeps_sound(state, request, computed, now);
}

proof fn lemma_handled_keeps_sound(
    state: SessionState,
    request: AsduView,
    computed: SampleView,
    now: Moment,
)
    requires
        state.sound(),
    ensures
        state.handled(request, computed, now).0.sound(),
{
    match demand_of(request) {
        Demand::Control { ioa, kind, asked, phase } => {
            lemma_controlled_keeps_sound(
                state,
                ControlView { request, ioa, kind, asked, phase },
                computed,
                now,
            );
        },
        Demand::Setpoint { ioa, bits, phase } => {
            lemma_controlled_keeps_sound(
                state,
                ControlView {
                    request,
                    ioa,
                    kind: ControlKind::Setpoint,
                    asked: ControlRequest::Setpoint,
                    phase,
                },
                setpoint_sample(bits, computed),
                now,
            );
        },
        _ => {
            lemma_new_values_keep_sound(state, state.handled(request, computed, now).0);
        },
    }
}

proof fn lemma_controlled_keeps_sound(
    state: SessionState,
    control: ControlView,
    computed: SampleView,
    now: Moment,
)
    requires
        state.sound(),
    ensures
        state.controlled(control, computed, now).0.sound(),
{
    let goal = control_outcome(
        state.home.points,
        control.ioa,
        control.kind,
        control.asked,
        computed,
    );
    let end = state.controlled(control, computed, now).0;
    if let Ok(desired) = goal {
        let index = position(state.home.points, control_target(control.ioa, control.kind))->0;
        let config = state.home.points[index].config;
        let (after, decision) = state.consult_policy(
            control.phase,
            own_decision(config.response, config.response_delay_ms),
        );
        lemma_new_values_keep_sound(state, after);
        match decision {
            ControlDecision::Delay(delay_ms) => {
                lemma_delay_keeps_sound(after, control, desired, delay_ms, now);
            },
            ControlDecision::Success | ControlDecision::ActConOnly => {
                lemma_completed_keeps_sound(
                    after,
                    control.request,
                    control.ioa,
                    control.kind,
                    desired,
                    control.phase,
                    decision is ActConOnly,
                    now,
                );
            },
            _ => {
                lemma_new_values_keep_sound(after, end);
            },
        }
    } else {
        lemma_new_values_keep_sound(state, end);
    }
}

/// Answering delayed commands keeps the points sound.
pub proof fn law_delayed_answers_keep_points_sound(state: SessionState, now: Moment)
    requires
        state.sound(),
    ensures
        state.flushed(now).0.sound(),
        state.ticked(now).0.sound(),
    decreases state.delayed.len(),
{
    if state.due(now) {
        let first = state.delayed[0];
        let rest = SessionState { delayed: state.delayed.skip(1), ..state };
        assert(admits(state.home.points, first.ioa, first.control_kind, first.desired));
        assert forall|i: int| 0 <= i < rest.delayed.len() implies #[trigger] admits(
            rest.home.points,
            rest.delayed[i].ioa,
            rest.delayed[i].control_kind,
            rest.delayed[i].desired,
        ) by {
            assert(admits(
                state.home.points,
                state.delayed[i + 1].ioa,
                state.delayed[i + 1].control_kind,
                state.delayed[i + 1].desired,
            ));
        }
        lemma_completed_keeps_sound(
            rest,
            first.request,
            first.ioa,
            first.control_kind,
            first.desired,
            first.phase,
            false,
            now,
        );
        let (after, error) = rest.completed(
            first.request,
            first.ioa,
            first.control_kind,
            first.desired,
            first.phase,
            false,
            now,
        );
        if error is None && after.delayed.len() < state.delayed.len() {
            law_delayed_answers_keep_points_sound(after, now);
        }
    }
    let (flushed, _) = state.flushed(now);
    lemma_new_values_keep_sound(flushed, state.ticked(now).0);
}

/// Values that the operator sets, and tables that are prepared, committed and
/// dropped, keep the points sound; a table is sound where its settings are.
pub proof fn law_operator_keeps_points_sound(
    state: CollectState,
    ioa: u32,
    type_id: Seq<char>,
    value: SampleView,
    generation: u64,
    points: Seq<crate::config::CollectPointView>,
    now: Moment,
)
    requires
        state.sound(),
        sound_configs(points),
    ensures
        state.value_set(ioa, type_id, value, now).sound(),
        state.preparing(generation, points, now).sound(),
        state.committing(generation, now).0.sound(),
        state.aborting(generation).sound(),
        sound_points(
            points.map_values(
                |config: crate::config::CollectPointView|
                    PointStateView::fresh(config, now.wall_ms),
            ),
        ),
{
    crate::protocol::station::lemma_position(
        state.points,
        crate::protocol::station::of_type(ioa, type_id),
    );
    let (set, _) = after_set_value(state.points, ioa, type_id, value, now.wall_ms);
    assert forall|i: int| 0 <= i < set.len() implies (#[trigger] set[i]).sound() by {
        assert(state.points[i].sound());
    }
    let waiting = state.preparing(generation, points, now).prepared->0;
    let prepared = waiting.1;
    assert forall|i: int| 0 <= i < prepared.len() implies (#[trigger] prepared[i]).sound() by {
        crate::protocol::station::lemma_position(
            state.points,
            crate::protocol::station::same_point(points[i]),
        );
        assert(prepared[i] == reconfigured_point(state.points, points[i], now.wall_ms));
        assert(sound_config(points[i]));
        if let Some(index) = position(
            state.points,
            crate::protocol::station::same_point(points[i]),
        ) {
            assert(state.points[index].sound());
        }
    }
    let fresh = points.map_values(
        |config: crate::config::CollectPointView| PointStateView::fresh(config, now.wall_ms),
    );
    assert forall|i: int| 0 <= i < fresh.len() implies (#[trigger] fresh[i]).sound() by {
        assert(sound_config(points[i]));
    }
}

/// Whatever command the operator gives while a peer is connected, the points
/// stay sound, as long as a table to be prepared is.
pub proof fn law_commands_keep_points_sound(
    state: SessionState,
    command: CollectCommand,
    drawn: Seq<SampleView>,
    now: Moment,
    after: SessionState,
    reply: Option<Option<Seq<char>>>,
    resolved: bool,
)
    requires
        state.sound(),
        command matches CollectCommand::PrepareReload { points, .. } ==> sound_configs(
            crate::config::collect_views(points@),
        ),
        state.commanded(command, drawn, now, after, reply, resolved),
    ensures
        after.sound(),
{
    match command {
        CollectCommand::SetFaultPolicy(_) => {
            lemma_new_values_keep_sound(state, after);
        },
        CollectCommand::SetPointValue { ioa, type_id, value } => {
            let none = Seq::<crate::config::CollectPointView>::empty();
            law_operator_keeps_points_sound(state.home, ioa, type_id@, value@, 0, none, now);
            crate::protocol::station::lemma_position(
                state.home.points,
                crate::protocol::station::of_type(ioa, type_id@),
            );
            lemma_new_values_keep_sound(state, after);
        },
        CollectCommand::PrepareReload { generation, points } => {
            let configs = crate::config::collect_views(points@);
            let zero = crate::number::whole_sample(0);
            law_operator_keeps_points_sound(
                state.home,
                0,
                Seq::empty(),
                zero,
                generation,
                configs,
                now,
            );
        },
        CollectCommand::CommitReload { generation } => {},
        CollectCommand::AbortReload(generation) => {},
        CollectCommand::Upload(kind) => {
            let (mid, error) = choose|mid: SessionState, error: Option<Seq<char>>| #[trigger]
                uploads(state, kind, drawn, now, mid, error) && after == (match error {
                    None => mid,
                    Some(text) => mid.log(
                        now,
                        Direction::Internal,
                        Severity::Error,
                        LogCategory::ActiveUpload,
                        kind.label_text() + "失败: "@ + text,
                    ),
                });
            lemma_uploads_keep_sound(state, kind, drawn, now, mid, error);
            lemma_new_values_keep_sound(mid, after);
        },
    }
}

proof fn lemma_uploads_keep_sound(
    before: SessionState,
    kind: UploadKind,
    drawn: Seq<SampleView>,
    now: Moment,
    after: SessionState,
    error: Option<Seq<char>>,
)
    requires
        before.sound(),
        uploads(before, kind, drawn, now, after, error),
    ensures
        after.sound(),
{
    let old_points = before.home.points;
    let new_points = after.home.points;
    if new_points != old_points {
        assert(points_refreshed(kind, old_points, drawn, now.wall_ms, new_points));
        assert forall|i: int| 0 <= i < new_points.len() implies {
            &&& (#[trigger] new_points[i]).sound()
            &&& new_points[i].config == old_points[i].config
        } by {
            assert(old_points[i].sound());
            crate::protocol::station::law_refresh_stays_in_range(
                kind,
                old_points[i],
                drawn[i],
                now.wall_ms,
                new_points[i],
            );
        }
    }
    lemma_new_values_keep_sound(before, after);
}

/// A table that was accepted has settings to work with.
pub proof fn law_accepted_tables_are_sound(
    rows: Seq<crate::config::CollectPointRow>,
    points: Seq<crate::config::CollectPointView>,
)
    requires
        crate::config::collect_rows_become(rows, Ok(points)),
    ensures
        sound_configs(points),
{
    assert forall|i: int| 0 <= i < points.len() implies sound_config(#[trigger] points[i]) by {
        assert(crate::config::collect_row_accepted(rows, i, points[i]));
    }
}

// ---------------------------------------------------------------------------
// Laws of how commands are answered.
/// The request as it goes back, with a cause and a sign.
pub open spec fn returned(state: SessionState, request: AsduView, cot: u8, negative: bool) -> AsduView {
    AsduView { cot, negative, address_field: state.home.common_address, ..request }
}

/// The units are sent, and nothing else happens; a failure to send them is the
/// outcome.
pub open spec fn replies(
    before: SessionState,
    units: Seq<AsduView>,
    now: Moment,
    after: SessionState,
    outcome: Result<bool, Seq<char>>,
) -> bool {
    let (desk, link, error) = after_send_units(before.home.desk, before.link, units, now);
    &&& after == (SessionState { home: CollectState { desk, ..before.home }, link, ..before })
    &&& match error {
        Some(text) => outcome == Err::<bool, Seq<char>>(text),
        None => outcome == Ok::<bool, Seq<char>>(false),
    }
}

/// One line is logged, and nothing else happens.
pub open spec fn notes(
    before: SessionState,
    now: Moment,
    direction: Direction,
    severity: Severity,
    category: LogCategory,
    summary: Seq<char>,
    after: SessionState,
) -> bool {
    after == (SessionState {
        home: CollectState {
            desk: before.home.desk.log(now, direction, severity, category, summary),
            ..before.home
        },
        ..before
    })
}

/// The command is confirmed; an executed one is then terminated, and only then
/// does the target take the value, which is shown and logged.
pub open spec fn complies(
    before: SessionState,
    request: AsduView,
    ioa: u32,
    index: int,
    desired: SampleView,
    phase: ControlPhase,
    now: Moment,
    after: SessionState,
    outcome: Result<bool, Seq<char>>,
) -> bool {
    let confirmation = seq![returned(before, request, 7, false)];
    let termination = seq![returned(before, request, 10, false)];
    let (desk, link, error) = after_send_units(before.home.desk, before.link, confirmation, now);
    if phase is Select || error is Some {
        replies(before, confirmation, now, after, outcome)
    } else {
        let confirmed = SessionState { home: CollectState { desk, ..before.home }, link, ..before };
        let (desk, link, error) = after_send_units(desk, link, termination, now);
        if error is Some {
            replies(confirmed, termination, now, after, outcome)
        } else {
            let points = before.home.points.update(
                index,
                PointStateView {
                    config: before.home.points[index].config,
                    value: desired,
                    counter_sequence: before.home.points[index].counter_sequence,
                    updated_ms: now.wall_ms,
                },
            );
            &&& outcome == Ok::<bool, Seq<char>>(false)
            &&& after == (SessionState {
                home: CollectState {
                    points,
                    desk: desk.emit(EventView::CollectValues(station_rows(points))).log(
                        now,
                        Direction::Internal,
                        Severity::Success,
                        LogCategory::Control,
                        "控制完成并提交点值：IOA="@ + decimal(ioa as nat) + " value="@
                            + desired.plain,
                    ),
                    ..before.home
                },
                link,
                ..before
            })
        }
    }
}

/// The command waits, with the others in the order in which they are due, until
/// the delay is over; without a delay of its own it waits for the common one.
pub open spec fn waits(
    before: SessionState,
    control: ControlView,
    desired: SampleView,
    delay_ms: u64,
    now: Moment,
    after: SessionState,
) -> bool {
    let delay: int = if delay_ms == 0 {
        before.home.fault_delay_ms as int
    } else {
        delay_ms as int
    };
    &&& notes(
        before,
        now,
        Direction::Internal,
        Severity::Warning,
        LogCategory::Control,
        "IOA="@ + decimal(control.ioa as nat) + " 延迟 "@ + decimal(delay as nat)
            + " ms 后应答"@,
        SessionState { delayed: before.delayed, ..after },
    )
    &&& exists|waiting: DelayedView|
        {
            &&& waiting.due == (if now.tick_ms + delay <= u64::MAX {
                now.tick_ms + delay
            } else {
                u64::MAX as int
            })
            &&& waiting.request == control.request
            &&& waiting.ioa == control.ioa
            &&& waiting.control_kind == control.kind
            &&& waiting.desired == desired
            &&& waiting.phase == control.phase
            &&& after.delayed.to_multiset() == #[trigger] before.delayed.to_multiset().insert(
                waiting,
            )
        }
    &&& forall|i: int, j: int|
        0 <= i < j < after.delayed.len() ==> (#[trigger] after.delayed[i]).due <= (
        #[trigger] after.delayed[j]).due
}

/// The policy concerns a command in the phase: one that refuses selections a
/// selection, one that refuses executions or only confirms them an execution,
/// and any other both.
pub open spec fn concerns(policy: FaultPolicy, phase: ControlPhase) -> bool {
    match policy {
        FaultPolicy::RejectSelect => phase is Select,
        FaultPolicy::RejectExecute | FaultPolicy::ActConOnly => phase is Execute,
        FaultPolicy::Success
        | FaultPolicy::Silent
        | FaultPolicy::DelaySuccess
        | FaultPolicy::Disconnect => true,
    }
}

proof fn lemma_waits(
    before: SessionState,
    control: ControlView,
    desired: SampleView,
    delay_ms: u64,
    now: Moment,
)
    ensures
        waits(
            before,
            control,
            desired,
            delay_ms,
            now,
            before.decided(control, desired, ControlDecision::Delay(delay_ms), now).0,
        ),
{
    broadcast use vstd::seq_lib::group_to_multiset_ensures;

    let after = before.decided(control, desired, ControlDecision::Delay(delay_ms), now).0;
    let effective = if delay_ms == 0 {
        before.home.fault_delay_ms
    } else {
        delay_ms
    };
    let waiting = DelayedView {
        due: saturated_sum(now.tick_ms, effective),
        request: control.request,
        ioa: control.ioa,
        control_kind: control.kind,
        desired,
        phase: control.phase,
    };
    let unsorted = before.delayed.push(waiting);
    crate::order::law_sorting(unsorted, by_due());
    assert(crate::order::total_order(by_due()));
    assert(after.delayed.to_multiset() == before.delayed.to_multiset().insert(waiting));
    assert forall|i: int, j: int| 0 <= i < j < after.delayed.len() implies (
    #[trigger] after.delayed[i]).due <= (#[trigger] after.delayed[j]).due by {
        assert(by_due()(after.delayed[i], after.delayed[j]));
    }
}

/// Where no policy of the operator concerns it, a command with a goal is
/// answered as its target is configured: refused with one negative confirmation,
/// confirmed without more, left without an answer, answered later, or carried
/// out. Only the last changes the points.
pub proof fn law_targets_answer_as_configured(
    state: SessionState,
    control: ControlView,
    computed: SampleView,
    now: Moment,
    index: int,
)
    requires
        is_operated(state.home.points, index, control.ioa, control.kind),
        control_outcome(
            state.home.points,
            control.ioa,
            control.kind,
            control.asked,
            computed,
        ) is Ok,
        state.home.fault_policy matches Some(policy) ==> !concerns(policy, control.phase),
    ensures
        ({
            let goal = control_outcome(
                state.home.points,
                control.ioa,
                control.kind,
                control.asked,
                computed,
            )->Ok_0;
            let (after, outcome) = state.controlled(control, computed, now);
            let config = state.home.points[index].config;
            &&& config.response !is Success ==> after.home.points == state.home.points
            &&& match config.response {
                DefaultResponseMode::Reject => replies(
                    state,
                    seq![returned(state, control.request, 7, true)],
                    now,
                    after,
                    outcome,
                ),
                DefaultResponseMode::ActConOnly => replies(
                    state,
                    seq![returned(state, control.request, 7, false)],
                    now,
                    after,
                    outcome,
                ),
                DefaultResponseMode::Silent => outcome == Ok::<bool, Seq<char>>(false) && notes(
                    state,
                    now,
                    Direction::Internal,
                    Severity::Warning,
                    LogCategory::Control,
                    "一次性/点位策略命中：IOA="@ + decimal(control.ioa as nat) + " 完全静默"@,
                    after,
                ),
                DefaultResponseMode::DelaySuccess => outcome == Ok::<bool, Seq<char>>(false)
                    && waits(state, control, goal, config.response_delay_ms, now, after),
                DefaultResponseMode::Success => complies(
                    state,
                    control.request,
                    control.ioa,
                    index,
                    goal,
                    control.phase,
                    now,
                    after,
                    outcome,
                ),
            }
        }),
{
    crate::protocol::station::lemma_operated(
        state.home.points,
        index,
        control.ioa,
        control.kind,
    );
    let goal = control_outcome(
        state.home.points,
        control.ioa,
        control.kind,
        control.asked,
        computed,
    )->Ok_0;
    let config = state.home.points[index].config;
    lemma_waits(state, control, goal, config.response_delay_ms, now);
}

/// A policy of the operator that concerns a command with a goal is used up by
/// it and comes before what the target is configured to do. Only success
/// changes the points, and only one policy closes the link.
pub proof fn law_policies_come_first(
    state: SessionState,
    control: ControlView,
    computed: SampleView,
    now: Moment,
    index: int,
    policy: FaultPolicy,
)
    requires
        is_operated(state.home.points, index, control.ioa, control.kind),
        control_outcome(
            state.home.points,
            control.ioa,
            control.kind,
            control.asked,
            computed,
        ) is Ok,
        state.home.fault_policy == Some(policy),
        concerns(policy, control.phase),
    ensures
        ({
            let goal = control_outcome(
                state.home.points,
                control.ioa,
                control.kind,
                control.asked,
                computed,
            )->Ok_0;
            let (after, outcome) = state.controlled(control, computed, now);
            let before = SessionState {
                home: CollectState {
                    fault_policy: None,
                    desk: state.home.desk.emit(EventView::FaultPolicyChanged(None)),
                    ..state.home
                },
                ..state
            };
            &&& after.home.fault_policy is None
            &&& policy !is Success ==> after.home.points == state.home.points
            &&& outcome == Ok::<bool, Seq<char>>(true) <==> policy is Disconnect
            &&& match policy {
                FaultPolicy::RejectSelect | FaultPolicy::RejectExecute => replies(
                    before,
                    seq![returned(state, control.request, 7, true)],
                    now,
                    after,
                    outcome,
                ),
                FaultPolicy::ActConOnly => replies(
                    before,
                    seq![returned(state, control.request, 7, false)],
                    now,
                    after,
                    outcome,
                ),
                FaultPolicy::Silent => outcome == Ok::<bool, Seq<char>>(false) && notes(
                    before,
                    now,
                    Direction::Internal,
                    Severity::Warning,
                    LogCategory::Control,
                    "一次性/点位策略命中：IOA="@ + decimal(control.ioa as nat) + " 完全静默"@,
                    after,
                ),
                FaultPolicy::DelaySuccess => outcome == Ok::<bool, Seq<char>>(false) && waits(
                    before,
                    control,
                    goal,
                    state.home.fault_delay_ms,
                    now,
                    after,
                ),
                FaultPolicy::Disconnect => notes(
                    before,
                    now,
                    Direction::Internal,
                    Severity::Warning,
                    LogCategory::Control,
                    "一次性策略命中：收到 IOA="@ + decimal(control.ioa as nat)
                        + " 后立即断开采集连接"@,
                    after,
                ),
                FaultPolicy::Success => complies(
                    before,
                    control.request,
                    control.ioa,
                    index,
                    goal,
                    control.phase,
                    now,
                    after,
                    outcome,
                ),
            }
        }),
{
    crate::protocol::station::lemma_operated(
        state.home.points,
        index,
        control.ioa,
        control.kind,
    );
    let goal = control_outcome(
        state.home.points,
        control.ioa,
        control.kind,
        control.asked,
        computed,
    )->Ok_0;
    let before = SessionState {
        home: CollectState {
            fault_policy: None,
            desk: state.home.desk.emit(EventView::FaultPolicyChanged(None)),
            ..state.home
        },
        ..state
    };
    lemma_waits(before, control, goal, state.home.fault_delay_ms, now);
}

/// The points change only where the command is executed and either a policy of
/// success concerns it, or no policy does and the target is configured to
/// succeed.
pub proof fn law_points_change_only_by_success(
    state: SessionState,
    control: ControlView,
    computed: SampleView,
    now: Moment,
    index: int,
)
    requires
        is_operated(state.home.points, index, control.ioa, control.kind),
        state.controlled(control, computed, now).0.home.points != state.home.points,
    ensures
        control.phase is Execute,
        match state.home.fault_policy {
            Some(policy) => if concerns(policy, control.phase) {
                policy is Success
            } else {
                state.home.points[index].config.response is Success
            },
            None => state.home.points[index].config.response is Success,
        },
{
    crate::protocol::station::lemma_operated(
        state.home.points,
        index,
        control.ioa,
        control.kind,
    );
}

/// A command that is refused is logged and answered with one negative unit that
/// names an unknown object; nothing else changes, and no policy is used up.
pub proof fn law_refused_commands_are_answered(
    state: SessionState,
    control: ControlView,
    computed: SampleView,
    now: Moment,
)
    requires
        control_outcome(
            state.home.points,
            control.ioa,
            control.kind,
            control.asked,
            computed,
        ) is Err,
    ensures
        ({
            let text = control_outcome(
                state.home.points,
                control.ioa,
                control.kind,
                control.asked,
                computed,
            )->Err_0;
            let (after, outcome) = state.controlled(control, computed, now);
            exists|mid: SessionState|
                notes(
                    state,
                    now,
                    Direction::Internal,
                    Severity::Warning,
                    LogCategory::Control,
                    text,
                    mid,
                ) && #[trigger] replies(
                    mid,
                    seq![returned(state, control.request, 47, true)],
                    now,
                    after,
                    outcome,
                )
        }),
{
    let text = control_outcome(
        state.home.points,
        control.ioa,
        control.kind,
        control.asked,
        computed,
    )->Err_0;
    let (after, outcome) = state.controlled(control, computed, now);
    let mid = SessionState {
        home: CollectState {
            desk: state.home.desk.log(
                now,
                Direction::Internal,
                Severity::Warning,
                LogCategory::Control,
                text,
            ),
            ..state.home
        },
        ..state
    };
    assert(replies(
        mid,
        seq![returned(state, control.request, 47, true)],
        now,
        after,
        outcome,
    ));
}

/// Answers that wait are given when they are due, the first one first, as if
/// the command were carried out then; nothing happens before.
pub proof fn law_waiting_answers_come_when_due(state: SessionState, now: Moment, index: int)
    ensures
        state.delayed.len() == 0 || state.delayed[0].due > now.tick_ms ==> state.flushed(now) == (
            state,
            None::<Seq<char>>,
        ),
        state.delayed.len() > 0 && state.delayed[0].due <= now.tick_ms && is_operated(
            state.home.points,
            index,
            state.delayed[0].ioa,
            state.delayed[0].control_kind,
        ) ==> {
            let first = state.delayed[0];
            let before = SessionState { delayed: state.delayed.skip(1), ..state };
            exists|mid: SessionState, outcome: Result<bool, Seq<char>>|
                {
                    &&& #[trigger] complies(
                        before,
                        first.request,
                        first.ioa,
                        index,
                        first.desired,
                        first.phase,
                        now,
                        mid,
                        outcome,
                    )
                    &&& mid.delayed == state.delayed.skip(1)
                    &&& match outcome {
                        Err(text) => state.flushed(now) == (mid, Some(text)),
                        Ok(_) => state.flushed(now) == mid.flushed(now),
                    }
                }
        },
{
    if state.delayed.len() > 0 && state.delayed[0].due <= now.tick_ms && is_operated(
        state.home.points,
        index,
        state.delayed[0].ioa,
        state.delayed[0].control_kind,
    ) {
        let first = state.delayed[0];
        let before = SessionState { delayed: state.delayed.skip(1), ..state };
        crate::protocol::station::lemma_operated(
            state.home.points,
            index,
            first.ioa,
            first.control_kind,
        );
        lemma_completed_keeps_waiting(
            before,
            first.request,
            first.ioa,
            first.control_kind,
            first.desired,
            first.phase,
            false,
            now,
        );
        let (mid, error) = before.completed(
            first.request,
            first.ioa,
            first.control_kind,
            first.desired,
            first.phase,
            false,
            now,
        );
        let outcome = match error {
            Some(text) => Err::<bool, Seq<char>>(text),
            None => Ok::<bool, Seq<char>>(false),
        };
        assert(complies(
            before,
            first.request,
            first.ioa,
            index,
            first.desired,
            first.phase,
            now,
            mid,
            outcome,
        ));
    }
}

// ---------------------------------------------------------------------------
// Laws of requests.
/// The request is one for this station, or for all.
pub open spec fn is_meant(state: SessionState, request: AsduView) -> bool {
    request.address_field == state.home.common_address || request.address_field == 65535
}

/// A request for another station is answered with one negative unit that names
/// an unknown station, and changes nothing.
pub proof fn law_other_stations_are_unknown(
    state: SessionState,
    request: AsduView,
    computed: SampleView,
    now: Moment,
)
    requires
        !is_meant(state, request),
    ensures
        replies(
            state,
            seq![returned(state, request, 46, true)],
            now,
            state.handled(request, computed, now).0,
            state.handled(request, computed, now).1,
        ),
{
}

/// An interrogation is confirmed, answered with what the points are and
/// terminated: the station for 20, one of sixteen groups for the numbers above,
/// and refused as of unknown cause for any other number. The cause of the
/// reports is the number, and they go to who asked.
pub proof fn law_interrogations_are_answered(
    state: SessionState,
    request: AsduView,
    objects: Seq<InformationObject>,
    computed: SampleView,
    now: Moment,
)
    requires
        is_meant(state, request),
        request.objects == ObjectsView::Known(objects),
        objects.len() > 0,
        objects[0].element is Interrogation,
    ensures
        ({
            let qoi = objects[0].element->Interrogation_qoi;
            let (after, outcome) = state.handled(request, computed, now);
            let header = ReportHeader {
                cot: qoi,
                common_address: state.home.common_address,
                originator_address: request.originator_address,
                test: request.test,
            };
            let group = if qoi == 20 {
                None
            } else {
                Some((qoi - 20) as u8)
            };
            if 20 <= qoi <= 36 {
                replies(
                    state,
                    seq![returned(state, request, 7, false)] + general_units(
                        state.home.points,
                        group,
                        header,
                    ) + seq![returned(state, request, 10, false)],
                    now,
                    after,
                    outcome,
                )
            } else {
                replies(state, seq![returned(state, request, 45, true)], now, after, outcome)
            }
        }),
{
}

/// A counter interrogation is confirmed, answered with what the counters are
/// and terminated: one of four groups for its number, all for any other. The
/// cause of the reports counts up from 37.
pub proof fn law_counters_are_answered(
    state: SessionState,
    request: AsduView,
    objects: Seq<InformationObject>,
    computed: SampleView,
    now: Moment,
)
    requires
        is_meant(state, request),
        request.objects == ObjectsView::Known(objects),
        objects.len() > 0,
        objects[0].element is CounterInterrogation,
    ensures
        ({
            let rqt = objects[0].element->CounterInterrogation_rqt;
            let (after, outcome) = state.handled(request, computed, now);
            let grouped = rqt == 1 || rqt == 2 || rqt == 3 || rqt == 4;
            let header = ReportHeader {
                cot: if grouped {
                    (37 + rqt) as u8
                } else {
                    37
                },
                common_address: state.home.common_address,
                originator_address: request.originator_address,
                test: request.test,
            };
            let group = if grouped {
                Some(rqt)
            } else {
                None
            };
            replies(
                state,
                seq![returned(state, request, 7, false)] + plain_units(
                    state.home.points,
                    crate::model::CollectPointKind::Counter,
                    group,
                    header,
                ) + seq![returned(state, request, 10, false)],
                now,
                after,
                outcome,
            )
        }),
{
}

/// The phase that a command is in, by its qualifier.
pub open spec fn is_in_phase(se: SelectExecute, phase: ControlPhase) -> bool {
    (se is Select) == (phase is Select)
}

/// A command asks of the target at its address what its element says: a state,
/// a step, or a set point with the value that it holds. It is selected or
/// executed as its qualifier says.
pub proof fn law_commands_ask_what_they_say(
    state: SessionState,
    request: AsduView,
    objects: Seq<InformationObject>,
    computed: SampleView,
    now: Moment,
    phase: ControlPhase,
)
    requires
        is_meant(state, request),
        request.objects == ObjectsView::Known(objects),
        objects.len() > 0,
    ensures
        ({
            let ioa = objects[0].address;
            match objects[0].element {
                Element::SingleCommand { scs, qu } => is_in_phase(qu.se, phase) ==> state.handled(
                    request,
                    computed,
                    now,
                ) == state.controlled(
                    (ControlView {
                        request,
                        ioa,
                        kind: ControlKind::Single,
                        asked: ControlRequest::State(Some(scs == Spi::On)),
                        phase,
                    }),
                    computed,
                    now,
                ),
                Element::DoubleCommand { dcs, qu } => is_in_phase(qu.se, phase) ==> state.handled(
                    request,
                    computed,
                    now,
                ) == state.controlled(
                    (ControlView {
                        request,
                        ioa,
                        kind: ControlKind::Double,
                        asked: ControlRequest::State(
                            if dcs == Dpi::On {
                                Some(true)
                            } else if dcs == Dpi::Off {
                                Some(false)
                            } else {
                                None
                            },
                        ),
                        phase,
                    }),
                    computed,
                    now,
                ),
                Element::RegulatingCommand { rcs, qu } => is_in_phase(qu.se, phase)
                    ==> state.handled(request, computed, now) == state.controlled(
                    (ControlView {
                        request,
                        ioa,
                        kind: ControlKind::Regulating,
                        asked: ControlRequest::Step(
                            if rcs == Rcs::Increment {
                                Some(true)
                            } else if rcs == Rcs::Decrement {
                                Some(false)
                            } else {
                                None
                            },
                        ),
                        phase,
                    }),
                    computed,
                    now,
                ),
                Element::FloatSetpoint { bits, qos } => is_in_phase(qos.se, phase)
                    ==> state.handled(request, computed, now) == state.controlled(
                    (ControlView {
                        request,
                        ioa,
                        kind: ControlKind::Setpoint,
                        asked: ControlRequest::Setpoint,
                        phase,
                    }),
                    (SampleView { value: crate::number::widen(bits), ..computed }),
                    now,
                ),
                Element::ClockSync { .. } => replies(
                    state,
                    seq![returned(state, request, 7, false)],
                    now,
                    state.handled(request, computed, now).0,
                    state.handled(request, computed, now).1,
                ),
                Element::Interrogation { .. } => true,
                Element::CounterInterrogation { .. } => true,
                _ => state.handled(request, computed, now).1 == Ok::<bool, Seq<char>>(false)
                    && notes(
                    state,
                    now,
                    Direction::Incoming,
                    Severity::Warning,
                    LogCategory::Protocol,
                    "当前采集模拟器不处理 TypeID="@ + iec_type_name(request.type_id.number()),
                    state.handled(request, computed, now).0,
                ),
            }
        }),
{
}

/// A request whose objects are not known is only logged. One that needs an
/// object and has none fails without an answer, and a clock command without
/// one is confirmed all the same.
pub proof fn law_requests_without_objects(
    state: SessionState,
    request: AsduView,
    computed: SampleView,
    now: Moment,
)
    requires
        is_meant(state, request),
        request.objects matches ObjectsView::Known(objects) ==> objects.len() == 0,
    ensures
        ({
            let (after, outcome) = state.handled(request, computed, now);
            let needy = request.type_id is C_IC_NA_1 || request.type_id is C_CI_NA_1
                || request.type_id is C_SC_NA_1 || request.type_id is C_DC_NA_1 || request.type_id
                is C_RC_NA_1 || request.type_id is C_SE_NC_1;
            if request.objects is Known && request.type_id is C_CS_NA_1 {
                replies(state, seq![returned(state, request, 7, false)], now, after, outcome)
            } else if request.objects is Known && needy {
                after == state && outcome is Err
            } else {
                outcome == Ok::<bool, Seq<char>>(false) && notes(
                    state,
                    now,
                    Direction::Incoming,
                    Severity::Warning,
                    LogCategory::Protocol,
                    "当前采集模拟器不处理 TypeID="@ + iec_type_name(request.type_id.number()),
                    after,
                )
            }
        }),
{
}

/// A request that fails is logged as an error and leaves the link open; the
/// link is closed only where the request asks for it.
pub proof fn law_failed_requests_are_logged(
    state: SessionState,
    request: AsduView,
    computed: SampleView,
    now: Moment,
)
    ensures
        ({
            let (mid, outcome) = state.handled(request, computed, now);
            let (after, closes) = state.processed(request, computed, now);
            &&& closes <==> outcome == Ok::<bool, Seq<char>>(true)
            &&& outcome is Ok ==> after == mid
            &&& outcome matches Err(text) ==> notes(
                mid,
                now,
                Direction::Internal,
                Severity::Error,
                LogCategory::Protocol,
                "处理采集请求失败: "@ + text,
                after,
            )
        }),
{
}

/// A unit is dealt with where no point table is prepared, and waits where one
/// is; at most 256 wait, and one more closes the link. Those that wait are
/// dealt with from the first one on.
pub proof fn law_units_are_taken_in_turn(
    state: SessionState,
    asdu: AsduView,
    computed: SampleView,
    now: Moment,
)
    ensures
        state.home.prepared is None ==> {
            let (after, closes) = state.processed(asdu, computed, now);
            let (taken, exit) = state.took(asdu, computed, now);
            taken == after && (exit is Disconnect) == closes
        },
        state.home.prepared is Some && state.deferred.len() < 256 ==> {
            let (taken, exit) = state.took(asdu, computed, now);
            &&& exit is Stay
            &&& taken == (SessionState { deferred: state.deferred + seq![asdu], ..state })
        },
        state.home.prepared is Some && state.deferred.len() >= 256 ==> {
            let (taken, exit) = state.took(asdu, computed, now);
            &&& exit is Disconnect
            &&& notes(
                state,
                now,
                Direction::Internal,
                Severity::Error,
                LogCategory::Configuration,
                "点表重载准备期间的业务 ASDU 缓冲已满，为避免语义混用已断开链路"@,
                taken,
            )
        },
        state.deferred.len() == 0 ==> state.replayed(computed, now) == (state, SessionExit::Stay),
        state.deferred.len() > 0 ==> {
            let rest = SessionState {
                deferred: state.deferred.subrange(1, state.deferred.len() as int),
                ..state
            };
            let (after, closes) = rest.processed(state.deferred[0], computed, now);
            let (replayed, exit) = state.replayed(computed, now);
            replayed == after && (exit is Disconnect) == closes
        },
{
    assert(state.deferred.push(asdu) =~= state.deferred + seq![asdu]);
    assert(state.deferred.skip(1) =~= state.deferred.subrange(1, state.deferred.len() as int));
}

/// A frame that breaks the rules of the link is logged and closes it. Any other
/// is answered and recorded as the link asks, and the unit that it carries, if
/// any, is taken.
pub proof fn law_frames_reach_their_requests(
    state: SessionState,
    frame: FrameView,
    computed: SampleView,
    now: Moment,
)
    ensures
        ({
            let (link, outcome) = after_frame(state.link, frame, now.tick_ms);
            let (after, exit) = state.received(frame, computed, now);
            let heard = SessionState { link, ..state };
            match outcome {
                Err(text) => exit is Disconnect && notes(
                    heard,
                    now,
                    Direction::Internal,
                    Severity::Error,
                    LogCategory::Protocol,
                    "采集链路处理失败: "@ + text,
                    after,
                ),
                Ok(processed) => {
                    let answered = state.home.desk.transmit_all(processed.replies).record_all(
                        processed.events,
                        now,
                    );
                    let desk = match processed.phase_changed {
                        Some(phase) => answered.enter(phase, phase.label_text()),
                        None => answered,
                    };
                    let ready = SessionState {
                        home: CollectState { desk, ..state.home },
                        ..heard
                    };
                    match processed.asdu {
                        Some(asdu) => (after, exit) == ready.took(asdu, computed, now),
                        None => after == ready && exit is Stay,
                    }
                },
            }
        }),
{
}

/// Time first brings the answers that are due, and then what the link does by
/// itself; a failure of either closes the link.
pub proof fn law_time_brings_answers_and_tests(state: SessionState, now: Moment)
    ensures
        ({
            let (flushed, failure) = state.flushed(now);
            let (link, ticked) = after_tick(flushed.link, now.tick_ms);
            let (after, exit) = state.ticked(now);
            &&& (exit is Stay) <==> failure is None && ticked.outcome is Ok
            &&& failure matches Some(text) ==> notes(
                flushed,
                now,
                Direction::Internal,
                Severity::Error,
                LogCategory::Control,
                "发送延迟控制回执失败: "@ + text,
                after,
            )
            &&& failure is None ==> {
                let sent = SessionState {
                    link,
                    home: CollectState {
                        desk: flushed.home.desk.transmit_all(ticked.replies),
                        ..flushed.home
                    },
                    ..flushed
                };
                match ticked.outcome {
                    Ok(events) => after == (SessionState {
                        home: CollectState {
                            desk: sent.home.desk.record_all(events, now),
                            ..sent.home
                        },
                        ..sent
                    }),
                    Err(text) => notes(
                        sent,
                        now,
                        Direction::Internal,
                        Severity::Error,
                        LogCategory::KeepAlive,
                        "采集链路计时器失败: "@ + text,
                        after,
                    ),
                }
            }
        }),
{
}

/// What has to be computed for a request: the step of a target that is told to
/// move, from its present value, and how a set point reads; else nothing.
pub proof fn law_steps_and_setpoints_are_computed(
    points: Seq<PointStateView>,
    request: AsduView,
    objects: Seq<InformationObject>,
    index: int,
)
    requires
        request.objects == ObjectsView::Known(objects),
        objects.len() > 0,
    ensures
        match objects[0].element {
            Element::RegulatingCommand { rcs, .. } => {
                &&& is_operated(points, index, objects[0].address, ControlKind::Regulating)
                    ==> match input_of(points, request) {
                    ControlInput::Stepped { current, step, up } => {
                        &&& rcs is Increment || rcs is Decrement
                        &&& current == points[index].value.value
                        &&& step == points[index].config.step
                        &&& up == (rcs is Increment)
                    },
                    ControlInput::Nothing => rcs !is Increment && rcs !is Decrement,
                    _ => false,
                }
            },
            Element::FloatSetpoint { bits, .. } => input_of(points, request)
                == (ControlInput::Setpoint { bits }),
            _ => input_of(points, request) is Nothing,
        },
{
    if is_operated(points, index, objects[0].address, ControlKind::Regulating) {
        crate::protocol::station::lemma_operated(
            points,
            index,
            objects[0].address,
            ControlKind::Regulating,
        );
    }
}

// ---------------------------------------------------------------------------
// Laws of what the operator asks.
/// The units went out as the report of the points as they are after it.
pub open spec fn went_out(
    before: SessionState,
    kind: UploadKind,
    now: Moment,
    after: SessionState,
    units: Seq<AsduView>,
) -> bool {
    let (desk, link, failure) = after_send_units(
        before.home.desk,
        before.link,
        units,
        now,
    );
    let count = before.home.points.filter(is_about(kind)).len();
    &&& units.len() > 0
    &&& is_report_of(
        after.home.points,
        is_about(kind),
        kind is SingleSoe || kind is DoubleSoe,
        (ReportHeader {
            cot: 3,
            common_address: before.home.common_address,
            originator_address: before.home.originator_address,
            test: false,
        }),
        units,
    )
    &&& failure is None
    &&& count > 0
    &&& after == (SessionState {
        home: CollectState {
            points: after.home.points,
            desk: desk.emit(
                EventView::CollectValues(station_rows(after.home.points)),
            ).log(
                now,
                Direction::Outgoing,
                Severity::Success,
                LogCategory::ActiveUpload,
                kind.label_text() + (if kind is CurrentValues {
                    "完成，共上送 "@ + decimal(count) + " 个点，点值保持不变"@
                } else {
                    "完成，共刷新 "@ + decimal(count) + " 个点"@
                }),
            ),
            ..before.home
        },
        link,
        ..before
    })
}

/// A report that goes out says what the points it is about are then, each as it
/// was refreshed, under the cause of a spontaneous one and with the addresses of
/// the station; the points are shown as they were reported, and how many there
/// were is logged.
pub proof fn law_reports_say_what_the_points_become(
    before: SessionState,
    kind: UploadKind,
    drawn: Seq<SampleView>,
    now: Moment,
    after: SessionState,
    error: Option<Seq<char>>,
)
    requires
        uploads(before, kind, drawn, now, after, error),
        kind !is InitializationEnd,
        error is None,
    ensures
        before.link.phase is Active,
        after.home.points.len() == before.home.points.len(),
        forall|i: int|
            0 <= i < before.home.points.len() ==> refreshed_point(
                kind,
                before.home.points[i],
                drawn[i],
                now.wall_ms,
                #[trigger] after.home.points[i],
            ),
        exists|units: Seq<AsduView>| #[trigger] went_out(before, kind, now, after, units),
{
    let home = before.home;
    crate::protocol::station::law_reports_count_their_points(kind, home.points);
    let header = spontaneous_header(home.common_address, home.originator_address);
    let (points, units) = choose|
        points: Seq<PointStateView>,
        units: Result<Seq<AsduView>, Seq<char>>,
    |
        {
            &&& points_refreshed(kind, home.points, drawn, now.wall_ms, points)
            &&& #[trigger] upload_units(points, kind, header, units)
            &&& match units {
                Err(text) => after == before && error == Some(text),
                Ok(units) => (after, error) == after_report(
                    before,
                    kind,
                    selected_count(kind, home.points),
                    points,
                    units,
                    now,
                ),
            }
        };
    let units = units->Ok_0;
    crate::protocol::station::law_reports_say_present_values(points, kind, header, units);
    let count = home.points.filter(is_about(kind)).len();
    assert(after.home.points == points);
    assert(kind.label_text() + "完成，共上送 "@ + decimal(count) + " 个点，点值保持不变"@
        =~= kind.label_text() + ("完成，共上送 "@ + decimal(count)
        + " 个点，点值保持不变"@));
    assert(kind.label_text() + "完成，共刷新 "@ + decimal(count) + " 个点"@ =~= kind.label_text()
        + ("完成，共刷新 "@ + decimal(count) + " 个点"@));
    assert(went_out(before, kind, now, after, units));
}

/// The end of an initialization is announced by one unit of the cause for it,
/// without any point; a report on no point sends nothing.
pub proof fn law_initializations_are_announced(
    before: SessionState,
    kind: UploadKind,
    drawn: Seq<SampleView>,
    now: Moment,
    after: SessionState,
    error: Option<Seq<char>>,
)
    requires
        uploads(before, kind, drawn, now, after, error),
        before.link.phase is Active,
    ensures
        kind is InitializationEnd ==> {
            let unit = AsduView {
                type_id: TypeId::M_EI_NA_1,
                cot: 4,
                originator_address: before.home.originator_address,
                address_field: before.home.common_address,
                sequence: false,
                test: false,
                negative: false,
                objects: ObjectsView::Known(
                    seq![
                        InformationObject {
                            address: 0,
                            element: Element::InitializationEnd { changed: false, cause: 0 },
                        },
                    ],
                ),
            };
            replies(
                before,
                seq![unit],
                now,
                after,
                match error {
                    Some(text) => Err(text),
                    None => Ok(false),
                },
            )
        },
        kind !is InitializationEnd && before.home.points.filter(is_about(kind)).len() == 0
            ==> after == before && error is Some,
{
    crate::protocol::station::law_reports_count_their_points(kind, before.home.points);
}

/// A value that the operator sets reaches the first point at the address and of
/// the type where it may be set, and is shown and logged; else an error is
/// logged and nothing changes.
pub proof fn law_set_values_are_shown(
    state: CollectState,
    ioa: u32,
    kind: crate::model::CollectPointKind,
    value: SampleView,
    now: Moment,
    index: int,
)
    requires
        is_first_of(state.points, index, ioa, kind),
    ensures
        ({
            let after = state.value_set(ioa, crate::protocol::station::type_mnemonic(kind), value, now);
            if may_be_set(state.points[index], value.value) {
                let points = state.points.update(
                    index,
                    PointStateView { value, updated_ms: now.wall_ms, ..state.points[index] },
                );
                exists|text: Seq<char>|
                    shows_value(points[index], text) && after == (CollectState {
                        points,
                        desk: state.desk.emit(EventView::CollectValues(station_rows(points))).log(
                            now,
                            Direction::Internal,
                            Severity::Success,
                            LogCategory::Configuration,
                            #[trigger] ("手工修改采集点 "@ + crate::protocol::station::type_mnemonic(kind) + "/IOA="@
                                + decimal(ioa as nat) + "，新值="@ + text),
                        ),
                        ..state
                    })
            } else {
                exists|text: Seq<char>|
                    after == (CollectState {
                        desk: state.desk.log(
                            now,
                            Direction::Internal,
                            Severity::Error,
                            LogCategory::Configuration,
                            #[trigger] ("手工修改采集点失败: "@ + text),
                        ),
                        ..state
                    })
            }
        }),
{
    crate::protocol::station::law_values_are_set_where_they_may(
        state.points,
        ioa,
        kind,
        value,
        now.wall_ms,
        index,
    );
    let (points, answer) = after_set_value(
        state.points,
        ioa,
        crate::protocol::station::type_mnemonic(kind),
        value,
        now.wall_ms,
    );
    match answer {
        Ok(text) => {
            let put = state.points.update(
                index,
                PointStateView { value, updated_ms: now.wall_ms, ..state.points[index] },
            );
            assert(points =~= put);
            assert(shows_value(put[index], text));
            let line = "手工修改采集点 "@ + crate::protocol::station::type_mnemonic(kind) + "/IOA="@ + decimal(ioa as nat)
                + "，新值="@ + text;
            assert(line == line);
        },
        Err(text) => {
            let line = "手工修改采集点失败: "@ + text;
            assert(line == line);
        },
    }
}

/// While answers wait, a point table is neither prepared nor committed, and
/// nothing changes. A table is committed only under its own generation.
pub proof fn law_waiting_answers_hold_back_a_reload(
    state: SessionState,
    command: CollectCommand,
    drawn: Seq<SampleView>,
    now: Moment,
    after: SessionState,
    reply: Option<Option<Seq<char>>>,
    resolved: bool,
)
    requires
        state.commanded(command, drawn, now, after, reply, resolved),
    ensures
        (command is PrepareReload || command is CommitReload) && state.delayed.len() > 0 ==> after
            == state && (reply matches Some(Some(_))) && !resolved,
        command matches CollectCommand::CommitReload { generation } ==> (resolved
            <==> state.delayed.len() == 0 && (state.home.prepared matches Some((waiting, _))
            && waiting == generation)) && (resolved <==> reply == Some(None::<Seq<char>>)),
        command matches CollectCommand::AbortReload(generation) ==> (resolved
            <==> (state.home.prepared matches Some((waiting, _)) && waiting == generation)),
        command is PrepareReload && state.delayed.len() == 0 ==> after.home.prepared is Some
            && after.home.points == state.home.points && reply == Some(None::<Seq<char>>),
        resolved ==> after.home.prepared is None,
        command !is CommitReload && command !is AbortReload ==> !resolved,
{
}

/// A policy that the operator sets is the one in force, and shown.
pub proof fn law_policies_are_set(
    state: CollectState,
    policy: Option<FaultPolicy>,
)
    ensures
        state.with_policy(policy) == (CollectState {
            fault_policy: policy,
            desk: state.desk.emit(EventView::FaultPolicyChanged(policy)),
            ..state
        }),
{
}

/// A peer that connects is shown as connected and stopped; an address that
/// cannot be listened on shows an error.
pub proof fn law_peers_are_shown(state: CollectState, peer: Seq<char>, now: Moment)
    ensures
        ({
            let after = state.accepted(peer, now);
            &&& after.desk.view.phase is ConnectedStopped
            &&& after.desk.view.peer == Some(peer)
            &&& after.desk.view.endpoint == state.desk.view.endpoint
            &&& after.points == state.points
        }),
        ({
            let after = state.listen_failed(peer, now);
            &&& after.desk.view.phase is Error
            &&& after.desk.view.detail == "监听失败: "@ + peer
            &&& after.points == state.points
        }),
{
}

} // verus!
