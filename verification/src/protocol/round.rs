//! Interrogations that the dispatching side has under way, and the snapshots
//! that they lead to.

use crate::config::{dispatch_views, DispatchPointConfig, DispatchPointView};
use crate::model::{
    rows, Direction, DispatchAction, DispatchPointKind, DispatchPointPurpose, DispatchRequest,
    EventView, LogCategory, Moment, PointRow, PointView, RuntimeEvent, Severity, SnapshotKind,
};
use crate::order::{lemma_sorting_keeps_items, sorted_by};
use crate::protocol::asdu::{
    counter_data_cause, counter_interrogation_cause, counter_interrogation_cot, float_text,
    general_data_cause, interrogation_cause, interrogation_cot, is_counter_data_cot,
    is_general_data_cot, law_every_received_value_has_its_row, law_received_values_get_rows,
    rows_at, unit_rows, value_row, value_rows,
};
use crate::protocol::desk::{
    added_line, law_entries_are_of_their_side, Desk, DeskState, OutputView,
};
use crate::protocol::element::{Dpi, Element, InformationObject, TypeId};
use crate::protocol::iec::{cot_name, iec_cot_name, iec_type_name, type_mnemonic};
use crate::protocol::message::{
    objects_valid, Asdu, AsduView, InformationObjects, ObjectsView, COT_ACTIVATION_CONFIRMATION,
    COT_ACTIVATION_TERMINATION,
};
use crate::protocol::wire::saturated_sum;
use crate::table::{
    fill, filled, law_every_value_is_shown, may_share, rows_by_address, shows, sort_by_address,
    Agreement,
};
use crate::text::{bool_text, cat, cat_bool, cat_number, decimal, signed_decimal, texts};
use vstd::prelude::*;

verus! {

// ---------------------------------------------------------------------------
// Expected points.
/// The row of a point that is expected, before a value came.
pub open spec fn expected_row(point: DispatchPointView) -> PointRow {
    PointRow {
        ioa: point.ioa,
        name: point.name,
        type_id: point.kind.type_id_text(),
        kind_name: point.kind.label_text(),
        value: None,
        quality: "—"@,
        updated_ms: None,
        configured: true,
    }
}

/// The rows of the points with a purpose, in the order of the point table.
pub open spec fn purpose_rows(
    points: Seq<DispatchPointView>,
    purpose: DispatchPointPurpose,
) -> Seq<PointRow>
    decreases points.len(),
{
    if points.len() == 0 {
        Seq::empty()
    } else {
        let before = purpose_rows(points.drop_last(), purpose);
        if points.last().purpose == purpose {
            before.push(expected_row(points.last()))
        } else {
            before
        }
    }
}

/// The rows of the points with a purpose, by address.
pub open spec fn expected_table(
    points: Seq<DispatchPointView>,
    purpose: DispatchPointPurpose,
) -> Seq<PointRow> {
    sorted_by(purpose_rows(points, purpose), rows_by_address())
}

pub fn expected_views(points: &Vec<DispatchPointConfig>, purpose: DispatchPointPurpose) -> (result:
    Vec<PointView>)
    ensures
        rows(result@) == expected_table(dispatch_views(points@), purpose),
{
    let ghost views = dispatch_views(points@);
    let mut result: Vec<PointView> = Vec::new();
    let mut index: usize = 0;
    assert(views.take(0) =~= Seq::<DispatchPointView>::empty());
    assert(rows(result@) =~= Seq::<PointRow>::empty());
    while index < points.len()
        invariant
            index <= points@.len(),
            views == dispatch_views(points@),
            rows(result@) == purpose_rows(views.take(index as int), purpose),
        decreases points.len() - index,
    {
        assert(views.take(index + 1).drop_last() =~= views.take(index as int));
        assert(views.take(index + 1).last() == points@[index as int]@);
        let point = &points[index];
        if point.purpose == purpose {
            let row = PointView {
                ioa: point.ioa,
                name: point.name.clone(),
                type_id: point.kind.type_id().to_owned(),
                kind_name: point.kind.label().to_owned(),
                value: None,
                quality: "—".to_owned(),
                updated_ms: None,
                configured: true,
            };
            let ghost before = result@;
            result.push(row);
            assert(rows(result@) =~= rows(before).push(row@));
        }
        index += 1;
    }
    assert(views.take(index as int) =~= views);
    sort_by_address(result)
}

/// The purpose of the points that an interrogation reports.
pub open spec fn reported_purpose(kind: SnapshotKind) -> DispatchPointPurpose {
    match kind {
        SnapshotKind::General => DispatchPointPurpose::ExpectedGeneral,
        SnapshotKind::Energy => DispatchPointPurpose::ExpectedEnergy,
    }
}

/// The table of expected rows with the values that came, by address.
pub open spec fn merged(expected: Seq<PointRow>, values: Seq<PointRow>) -> Seq<PointRow> {
    sorted_by(filled(expected, Agreement::Same, values), rows_by_address())
}

/// Puts the values that came into the expected rows; a value without one gets a
/// row of its own.
pub fn merge_values(expected: Vec<PointView>, values: &Vec<PointView>) -> (result: Vec<PointView>)
    ensures
        rows(result@) == merged(rows(expected@), rows(values@)),
{
    sort_by_address(fill(expected, Agreement::Same, values))
}

/// The points that the dispatching side expects.
#[derive(Debug, Clone)]
pub struct ExpectedPoints {
    pub points: Vec<DispatchPointConfig>,
}

impl View for ExpectedPoints {
    type V = Seq<DispatchPointView>;

    open spec fn view(&self) -> Seq<DispatchPointView> {
        dispatch_views(self.points@)
    }
}

impl ExpectedPoints {
    pub fn new(points: Vec<DispatchPointConfig>) -> (result: Self)
        ensures
            result@ == dispatch_views(points@),
    {
        ExpectedPoints { points }
    }

    pub fn general_views(&self) -> (result: Vec<PointView>)
        ensures
            rows(result@) == expected_table(self@, DispatchPointPurpose::ExpectedGeneral),
    {
        expected_views(&self.points, DispatchPointPurpose::ExpectedGeneral)
    }

    pub fn energy_views(&self) -> (result: Vec<PointView>)
        ensures
            rows(result@) == expected_table(self@, DispatchPointPurpose::ExpectedEnergy),
    {
        expected_views(&self.points, DispatchPointPurpose::ExpectedEnergy)
    }

    pub fn merge_general(&self, values: &Vec<PointView>) -> (result: Vec<PointView>)
        ensures
            rows(result@) == merged(
                expected_table(self@, DispatchPointPurpose::ExpectedGeneral),
                rows(values@),
            ),
    {
        merge_values(self.general_views(), values)
    }

    pub fn merge_energy(&self, values: &Vec<PointView>) -> (result: Vec<PointView>)
        ensures
            rows(result@) == merged(
                expected_table(self@, DispatchPointPurpose::ExpectedEnergy),
                rows(values@),
            ),
    {
        merge_values(self.energy_views(), values)
    }
}

// ---------------------------------------------------------------------------
// Rounds.
#[derive(Debug, Clone, Copy, PartialEq, Eq, Structural)]
pub enum RoundPhase {
    AwaitActcon,
    Collecting,
}

/// An interrogation that is under way.
#[derive(Debug, Clone)]
pub struct InterrogationRound {
    pub request: DispatchRequest,
    pub response_common_address: u16,
    pub phase: RoundPhase,
    pub deadline: u64,
    pub values: Vec<PointView>,
}

#[verifier::ext_equal]
pub struct RoundState {
    pub request: DispatchRequest,
    pub response_common_address: u16,
    pub phase: RoundPhase,
    pub deadline: u64,
    pub values: Seq<PointRow>,
}

impl View for InterrogationRound {
    type V = RoundState;

    open spec fn view(&self) -> RoundState {
        RoundState {
            request: self.request,
            response_common_address: self.response_common_address,
            phase: self.phase,
            deadline: self.deadline,
            values: rows(self.values@),
        }
    }
}

pub open spec fn round_view(round: Option<InterrogationRound>) -> Option<RoundState> {
    match round {
        Some(round) => Some(round@),
        None => None,
    }
}

/// The interrogations that are under way, at most one of each kind.
#[derive(Debug, Clone)]
pub struct Rounds {
    pub general: Option<InterrogationRound>,
    pub energy: Option<InterrogationRound>,
}

#[verifier::ext_equal]
pub struct RoundsState {
    pub general: Option<RoundState>,
    pub energy: Option<RoundState>,
}

impl View for Rounds {
    type V = RoundsState;

    open spec fn view(&self) -> RoundsState {
        RoundsState { general: round_view(self.general), energy: round_view(self.energy) }
    }
}

/// The address that answers: a request for all is answered by the station that
/// is configured.
pub open spec fn answering_address(asked: u16, configured: u16) -> u16 {
    if asked == u16::MAX {
        configured
    } else {
        asked
    }
}

pub fn response_address(asked: u16, configured: u16) -> (result: u16)
    ensures
        result == answering_address(asked, configured),
{
    if asked == u16::MAX {
        configured
    } else {
        asked
    }
}

/// The kind of snapshot that a command asks for.
pub open spec fn snapshot_kind(action: DispatchAction) -> Option<SnapshotKind> {
    match action {
        DispatchAction::GeneralInterrogation => Some(SnapshotKind::General),
        DispatchAction::CounterInterrogation => Some(SnapshotKind::Energy),
        _ => None,
    }
}

pub fn interrogation_kind(action: DispatchAction) -> (result: Option<SnapshotKind>)
    ensures
        result == snapshot_kind(action),
{
    match action {
        DispatchAction::GeneralInterrogation => Some(SnapshotKind::General),
        DispatchAction::CounterInterrogation => Some(SnapshotKind::Energy),
        _ => None,
    }
}

pub open spec fn failed_round_text(kind: SnapshotKind, reason: Seq<char>) -> Seq<char> {
    kind.label_text() + "轮次失败，保留上一份完整快照: "@ + reason
}

/// A round is reported as failed.
pub open spec fn round_failed(
    desk: DeskState,
    kind: SnapshotKind,
    reason: Seq<char>,
    now: Moment,
) -> DeskState {
    desk.emit(EventView::RoundPending { kind, pending: false }).log(
        now,
        Direction::Internal,
        Severity::Error,
        LogCategory::Interrogation,
        failed_round_text(kind, reason),
    )
}

impl RoundsState {
    pub open spec fn idle() -> RoundsState {
        RoundsState { general: None, energy: None }
    }

    pub open spec fn of(self, kind: SnapshotKind) -> Option<RoundState> {
        match kind {
            SnapshotKind::General => self.general,
            SnapshotKind::Energy => self.energy,
        }
    }

    pub open spec fn with(self, kind: SnapshotKind, round: Option<RoundState>) -> RoundsState {
        match kind {
            SnapshotKind::General => RoundsState { general: round, ..self },
            SnapshotKind::Energy => RoundsState { energy: round, ..self },
        }
    }

    /// A round is begun, where the request is an interrogation and none of its
    /// kind is under way.
    pub open spec fn reserved(
        self,
        desk: DeskState,
        request: DispatchRequest,
        configured_common_address: u16,
        timeout_ms: u64,
        now: Moment,
    ) -> (RoundsState, DeskState, Option<Seq<char>>) {
        match snapshot_kind(request.action) {
            None => (self, desk, None),
            Some(kind) => if self.of(kind) is Some {
                (self, desk, Some(kind.label_text() + "已有未完成轮次"@))
            } else {
                (
                    self.with(
                        kind,
                        Some(
                            RoundState {
                                request,
                                response_common_address: answering_address(
                                    request.common_address,
                                    configured_common_address,
                                ),
                                phase: RoundPhase::AwaitActcon,
                                deadline: saturated_sum(now.tick_ms, timeout_ms),
                                values: Seq::empty(),
                            },
                        ),
                    ),
                    desk.emit(EventView::RoundPending { kind, pending: true }),
                    None,
                )
            },
        }
    }

    /// The round of a kind, if there is one, is given up.
    pub open spec fn aborted(
        self,
        desk: DeskState,
        kind: SnapshotKind,
        reason: Seq<char>,
        now: Moment,
    ) -> (RoundsState, DeskState) {
        if self.of(kind) is Some {
            (self.with(kind, None), round_failed(desk, kind, reason, now))
        } else {
            (self, desk)
        }
    }

    /// Both rounds are given up.
    pub open spec fn all_aborted(self, desk: DeskState, reason: Seq<char>, now: Moment) -> (
        RoundsState,
        DeskState,
    ) {
        let (general, mid) = self.aborted(desk, SnapshotKind::General, reason, now);
        general.aborted(mid, SnapshotKind::Energy, reason, now)
    }

    /// The round of a kind is given up where its time is over.
    pub open spec fn expired_kind(self, desk: DeskState, kind: SnapshotKind, now: Moment) -> (
        RoundsState,
        DeskState,
    ) {
        if self.of(kind) matches Some(round) && now.tick_ms >= round.deadline {
            self.aborted(desk, kind, "等待 ACTTERM 超时"@, now)
        } else {
            (self, desk)
        }
    }

    /// The rounds whose time is over are given up.
    pub open spec fn expired(self, desk: DeskState, now: Moment) -> (RoundsState, DeskState) {
        let (general, mid) = self.expired_kind(desk, SnapshotKind::General, now);
        general.expired_kind(mid, SnapshotKind::Energy, now)
    }
}

impl Rounds {
    pub fn new() -> (result: Self)
        ensures
            result@ == RoundsState::idle(),
    {
        Rounds { general: None, energy: None }
    }

    pub fn is_idle(&self) -> (result: bool)
        ensures
            result == (self@ == RoundsState::idle()),
    {
        self.general.is_none() && self.energy.is_none()
    }

    /// Begins a round. A request that is no interrogation begins none.
    pub fn reserve(
        &mut self,
        request: &DispatchRequest,
        configured_common_address: u16,
        timeout_ms: u64,
        now: Moment,
        desk: &mut Desk,
    ) -> (result: Result<(), String>)
        ensures
            (final(self)@, final(desk)@, crate::protocol::desk::error_view(result)) == old(
                self,
            )@.reserved(old(desk)@, *request, configured_common_address, timeout_ms, now),
    {
        let kind = match interrogation_kind(request.action) {
            Some(kind) => kind,
            None => {
                return Ok(());
            },
        };
        let busy = match kind {
            SnapshotKind::General => self.general.is_some(),
            SnapshotKind::Energy => self.energy.is_some(),
        };
        if busy {
            return Err(cat(kind.label().to_owned(), "已有未完成轮次"));
        }
        let values: Vec<PointView> = Vec::new();
        assert(rows(values@) =~= Seq::<PointRow>::empty());
        let round = InterrogationRound {
            request: *request,
            response_common_address: response_address(
                request.common_address,
                configured_common_address,
            ),
            phase: RoundPhase::AwaitActcon,
            deadline: now.tick_ms.saturating_add(timeout_ms),
            values,
        };
        match kind {
            SnapshotKind::General => {
                self.general = Some(round);
            },
            SnapshotKind::Energy => {
                self.energy = Some(round);
            },
        }
        desk.emit(RuntimeEvent::RoundPending { kind, pending: true });
        Ok(())
    }

    fn abort_kind(&mut self, kind: SnapshotKind, reason: &str, now: Moment, desk: &mut Desk)
        ensures
            (final(self)@, final(desk)@) == old(self)@.aborted(old(desk)@, kind, reason@, now),
    {
        let found = match kind {
            SnapshotKind::General => self.general.is_some(),
            SnapshotKind::Energy => self.energy.is_some(),
        };
        if found {
            match kind {
                SnapshotKind::General => {
                    self.general = None;
                },
                SnapshotKind::Energy => {
                    self.energy = None;
                },
            }
            report_failed_round(kind, reason, now, desk);
        }
    }

    /// Gives up the round that a command began, if there is one.
    pub fn abort(&mut self, action: DispatchAction, reason: &str, now: Moment, desk: &mut Desk)
        ensures
            (final(self)@, final(desk)@) == (match snapshot_kind(action) {
                Some(kind) => old(self)@.aborted(old(desk)@, kind, reason@, now),
                None => (old(self)@, old(desk)@),
            }),
    {
        if let Some(kind) = interrogation_kind(action) {
            self.abort_kind(kind, reason, now, desk);
        }
    }
}

fn report_failed_round(kind: SnapshotKind, reason: &str, now: Moment, desk: &mut Desk)
    ensures
        final(desk)@ == round_failed(old(desk)@, kind, reason@, now),
{
    desk.emit(RuntimeEvent::RoundPending { kind, pending: false });
    let text = cat(kind.label().to_owned(), "轮次失败，保留上一份完整快照: ");
    desk.log(
        now,
        Direction::Internal,
        Severity::Error,
        LogCategory::Interrogation,
        cat(text, reason),
    );
}

/// Gives up the rounds that are under way.
pub fn abort_rounds(rounds: &mut Rounds, reason: &str, now: Moment, desk: &mut Desk)
    ensures
        (final(rounds)@, final(desk)@) == old(rounds)@.all_aborted(old(desk)@, reason@, now),
{
    rounds.abort(DispatchAction::GeneralInterrogation, reason, now, desk);
    rounds.abort(DispatchAction::CounterInterrogation, reason, now, desk);
}

/// Gives up the rounds whose time is over.
pub fn expire_rounds(rounds: &mut Rounds, now: Moment, desk: &mut Desk)
    ensures
        (final(rounds)@, final(desk)@) == old(rounds)@.expired(old(desk)@, now),
{
    let general = match &rounds.general {
        Some(round) => now.tick_ms >= round.deadline,
        None => false,
    };
    if general {
        rounds.abort(DispatchAction::GeneralInterrogation, "等待 ACTTERM 超时", now, desk);
    }
    let energy = match &rounds.energy {
        Some(round) => now.tick_ms >= round.deadline,
        None => false,
    };
    if energy {
        rounds.abort(DispatchAction::CounterInterrogation, "等待 ACTTERM 超时", now, desk);
    }
}

// ---------------------------------------------------------------------------
// Answers to an interrogation.
/// What a unit means for a round.
#[derive(Debug)]
pub enum RoundOutcome {
    Unrelated,
    Confirmed,
    Data(Vec<PointView>),
    Complete,
    Abort(String),
    Mismatch(String),
}

#[verifier::ext_equal]
pub enum OutcomeView {
    Unrelated,
    Confirmed,
    Data(Seq<PointRow>),
    Complete,
    Abort(Seq<char>),
    Mismatch(Seq<char>),
}

impl View for RoundOutcome {
    type V = OutcomeView;

    open spec fn view(&self) -> OutcomeView {
        match self {
            RoundOutcome::Unrelated => OutcomeView::Unrelated,
            RoundOutcome::Confirmed => OutcomeView::Confirmed,
            RoundOutcome::Data(values) => OutcomeView::Data(rows(values@)),
            RoundOutcome::Complete => OutcomeView::Complete,
            RoundOutcome::Abort(text) => OutcomeView::Abort(text@),
            RoundOutcome::Mismatch(text) => OutcomeView::Mismatch(text@),
        }
    }
}

/// The type of the command that begins a round.
pub open spec fn command_type(kind: SnapshotKind) -> TypeId {
    match kind {
        SnapshotKind::General => TypeId::C_IC_NA_1,
        SnapshotKind::Energy => TypeId::C_CI_NA_1,
    }
}

/// The types of the values that a round collects.
pub open spec fn collected_type(kind: SnapshotKind, type_id: TypeId) -> bool {
    match kind {
        SnapshotKind::General => type_id is M_SP_NA_1 || type_id is M_DP_NA_1 || type_id
            is M_ME_NC_1,
        SnapshotKind::Energy => type_id is M_IT_NA_1,
    }
}

/// The causes that values of some round of the kind have.
pub open spec fn round_cause(kind: SnapshotKind, cot: u8) -> bool {
    match kind {
        SnapshotKind::General => general_data_cause(cot),
        SnapshotKind::Energy => counter_data_cause(cot),
    }
}

/// The cause that the values of this round have.
pub open spec fn expected_cause(kind: SnapshotKind, request: DispatchRequest) -> Option<u8> {
    match kind {
        SnapshotKind::General => interrogation_cause(request.qoi),
        SnapshotKind::Energy => Some(counter_interrogation_cause(request.qcc_request)),
    }
}

/// A confirmation or a termination repeats the one object of its request.
pub open spec fn qualifier_repeats(request: DispatchRequest, objects: ObjectsView) -> bool {
    match objects {
        ObjectsView::Known(objects) => objects.len() == 1 && objects[0].address == 0 && (match (
            request.action,
            objects[0].element,
        ) {
            (DispatchAction::GeneralInterrogation, Element::Interrogation { qoi }) => qoi
                == request.qoi,
            (DispatchAction::CounterInterrogation, Element::CounterInterrogation { rqt, frz }) =>
                rqt == request.qcc_request && frz == request.qcc_freeze,
            _ => false,
        }),
        ObjectsView::Other { .. } => false,
    }
}

pub fn round_qualifier_matches(request: &DispatchRequest, objects: &InformationObjects) -> (result:
    bool)
    ensures
        result == qualifier_repeats(*request, objects@),
{
    match objects {
        InformationObjects::Known(objects) => {
            if objects.len() != 1 || objects[0].address != 0 {
                return false;
            }
            match (request.action, objects[0].element) {
                (DispatchAction::GeneralInterrogation, Element::Interrogation { qoi }) => qoi
                    == request.qoi,
                (
                    DispatchAction::CounterInterrogation,
                    Element::CounterInterrogation { rqt, frz },
                ) => rqt == request.qcc_request && frz == request.qcc_freeze,
                _ => false,
            }
        },
        InformationObjects::Other { .. } => false,
    }
}

pub open spec fn cause_text(cot: Option<u8>) -> Seq<char> {
    match cot {
        Some(cot) => "Some("@ + iec_cot_name(cot) + ")"@,
        None => "None"@,
    }
}

/// What a unit means for a round. The floats are the renderings of those in the
/// unit.
pub open spec fn evaluated(
    round: RoundState,
    kind: SnapshotKind,
    asdu: AsduView,
    floats: Seq<Seq<char>>,
    updated: u64,
) -> OutcomeView {
    let request = round.request;
    let expected = expected_cause(kind, request);
    let command = asdu.type_id == command_type(kind) && (asdu.cot == COT_ACTIVATION_CONFIRMATION
        || asdu.cot == COT_ACTIVATION_TERMINATION);
    let data = collected_type(kind, asdu.type_id) && expected == Some(asdu.cot);
    if round_cause(kind, asdu.cot) && !collected_type(kind, asdu.type_id) {
        OutcomeView::Mismatch(
            "轮次数据 TypeID 不支持: "@ + iec_type_name(asdu.type_id.number()),
        )
    } else if round_cause(kind, asdu.cot) && expected != Some(asdu.cot) {
        OutcomeView::Mismatch(
            "数据 COT 期望 "@ + cause_text(expected) + " 实际 "@ + iec_cot_name(asdu.cot),
        )
    } else if !command && !data {
        OutcomeView::Unrelated
    } else if asdu.address_field != round.response_common_address {
        OutcomeView::Mismatch(
            "CA 期望 "@ + decimal(round.response_common_address as nat) + " 实际 "@ + decimal(
                asdu.address_field as nat,
            ),
        )
    } else if asdu.originator_address != request.originator_address {
        OutcomeView::Mismatch(
            "OA 期望 "@ + decimal(request.originator_address as nat) + " 实际 "@ + decimal(
                asdu.originator_address as nat,
            ),
        )
    } else if asdu.test != request.test {
        OutcomeView::Mismatch(
            "Test 期望 "@ + bool_text(request.test) + " 实际 "@ + bool_text(asdu.test),
        )
    } else if asdu.negative {
        OutcomeView::Abort("收到否定 "@ + iec_cot_name(asdu.cot))
    } else if command && !qualifier_repeats(request, asdu.objects) {
        OutcomeView::Mismatch("QOI/QCC 或信息体不匹配"@)
    } else if asdu.cot == COT_ACTIVATION_CONFIRMATION {
        OutcomeView::Confirmed
    } else if asdu.cot == COT_ACTIVATION_TERMINATION {
        if round.phase is Collecting {
            OutcomeView::Complete
        } else {
            OutcomeView::Mismatch("ACTCON 之前收到 ACTTERM"@)
        }
    } else if round.phase !is Collecting {
        OutcomeView::Mismatch("ACTCON 之前收到召唤数据"@)
    } else {
        OutcomeView::Data(unit_rows(asdu, floats, updated))
    }
}

fn is_collected_type(kind: SnapshotKind, type_id: TypeId) -> (result: bool)
    ensures
        result == collected_type(kind, type_id),
{
    match kind {
        SnapshotKind::General => matches!(
            type_id,
            TypeId::M_SP_NA_1 | TypeId::M_DP_NA_1 | TypeId::M_ME_NC_1
        ),
        SnapshotKind::Energy => matches!(type_id, TypeId::M_IT_NA_1),
    }
}

fn expected_cot(kind: SnapshotKind, request: &DispatchRequest) -> (result: Option<u8>)
    ensures
        result == expected_cause(kind, *request),
        result matches Some(cot) ==> cot < 64,
{
    match kind {
        SnapshotKind::General => interrogation_cot(request.qoi),
        SnapshotKind::Energy => Some(counter_interrogation_cot(request.qcc_request)),
    }
}

fn mismatched_cause(expected: Option<u8>, found: u8) -> (result: String)
    requires
        found < 64,
        expected matches Some(cot) ==> cot < 64,
    ensures
        result@ == "数据 COT 期望 "@ + cause_text(expected) + " 实际 "@ + iec_cot_name(found),
{
    let shown = match expected {
        Some(cot) => {
            let name = cot_name(cot);
            cat(cat("Some(".to_owned(), name.as_str()), ")")
        },
        None => "None".to_owned(),
    };
    let text = cat(cat("数据 COT 期望 ".to_owned(), shown.as_str()), " 实际 ");
    let name = cot_name(found);
    cat(text, name.as_str())
}

fn mismatched_number(field: &str, expected: u64, found: u64) -> (result: String)
    ensures
        result@ == field@ + decimal(expected as nat) + " 实际 "@ + decimal(found as nat),
{
    let text = cat_number(field.to_owned(), expected);
    cat_number(cat(text, " 实际 "), found)
}

/// Decides what a unit means for a round.
pub fn evaluate_round(
    round: &mut InterrogationRound,
    kind: SnapshotKind,
    asdu: &Asdu,
    floats: &Vec<String>,
    now: Moment,
) -> (result: RoundOutcome)
    ensures
        result@ == evaluated(old(round)@, kind, asdu@, texts(floats@), now.wall_ms),
        final(round)@ == (if result@ is Confirmed {
            RoundState { phase: RoundPhase::Collecting, ..old(round)@ }
        } else {
            old(round)@
        }),
{
    let cot: u8 = asdu.cot;
    let started = match kind {
        SnapshotKind::General => asdu.type_id == TypeId::C_IC_NA_1,
        SnapshotKind::Energy => asdu.type_id == TypeId::C_CI_NA_1,
    };
    let data_type = is_collected_type(kind, asdu.type_id);
    let expected = expected_cot(kind, &round.request);
    let has_expected_cot = match expected {
        Some(expected) => expected == cot,
        None => false,
    };
    let has_round_cot = match kind {
        SnapshotKind::General => is_general_data_cot(cot),
        SnapshotKind::Energy => is_counter_data_cot(cot),
    };
    let candidate_command = started && (cot == COT_ACTIVATION_CONFIRMATION || cot
        == COT_ACTIVATION_TERMINATION);
    let candidate_data = data_type && has_expected_cot;
    if has_round_cot && !data_type {
        let name = type_mnemonic(asdu.type_id.code());
        return RoundOutcome::Mismatch(
            cat("轮次数据 TypeID 不支持: ".to_owned(), name.as_str()),
        );
    }
    if has_round_cot && !has_expected_cot {
        return RoundOutcome::Mismatch(mismatched_cause(expected, cot));
    }
    if !candidate_command && !candidate_data {
        return RoundOutcome::Unrelated;
    }
    if asdu.address_field != round.response_common_address {
        return RoundOutcome::Mismatch(
            mismatched_number(
                "CA 期望 ",
                round.response_common_address as u64,
                asdu.address_field as u64,
            ),
        );
    }
    if asdu.originator_address != round.request.originator_address {
        return RoundOutcome::Mismatch(
            mismatched_number(
                "OA 期望 ",
                round.request.originator_address as u64,
                asdu.originator_address as u64,
            ),
        );
    }
    if asdu.test != round.request.test {
        let text = cat_bool("Test 期望 ".to_owned(), round.request.test);
        return RoundOutcome::Mismatch(cat_bool(cat(text, " 实际 "), asdu.test));
    }
    if asdu.negative {
        let name = cot_name(cot);
        return RoundOutcome::Abort(cat("收到否定 ".to_owned(), name.as_str()));
    }
    if candidate_command && !round_qualifier_matches(&round.request, &asdu.information_objects) {
        return RoundOutcome::Mismatch("QOI/QCC 或信息体不匹配".to_owned());
    }
    if cot == COT_ACTIVATION_CONFIRMATION {
        round.phase = RoundPhase::Collecting;
        return RoundOutcome::Confirmed;
    }
    if cot == COT_ACTIVATION_TERMINATION {
        return if round.phase == RoundPhase::Collecting {
            RoundOutcome::Complete
        } else {
            RoundOutcome::Mismatch("ACTCON 之前收到 ACTTERM".to_owned())
        };
    }
    if round.phase != RoundPhase::Collecting {
        return RoundOutcome::Mismatch("ACTCON 之前收到召唤数据".to_owned());
    }
    RoundOutcome::Data(rows_at(asdu, floats, now.wall_ms))
}

/// A round and a side after a unit came.
pub open spec fn after_unit(
    slot: Option<RoundState>,
    desk: DeskState,
    kind: SnapshotKind,
    asdu: AsduView,
    floats: Seq<Seq<char>>,
    points: Seq<DispatchPointView>,
    now: Moment,
) -> (Option<RoundState>, DeskState) {
    match slot {
        None => (slot, desk),
        Some(round) => match evaluated(round, kind, asdu, floats, now.wall_ms) {
            OutcomeView::Unrelated => (slot, desk),
            OutcomeView::Confirmed => (
                Some(RoundState { phase: RoundPhase::Collecting, ..round }),
                desk.log(
                    now,
                    Direction::Internal,
                    Severity::Success,
                    LogCategory::Interrogation,
                    kind.label_text() + "已收到完整匹配的正向 ACTCON，开始累积数据"@,
                ),
            ),
            OutcomeView::Data(values) => (
                Some(RoundState { values: round.values + values, ..round }),
                desk,
            ),
            OutcomeView::Complete => (
                None,
                desk.emit(
                    EventView::DispatchSnapshot {
                        kind,
                        values: merged(
                            expected_table(points, reported_purpose(kind)),
                            round.values,
                        ),
                    },
                ).emit(EventView::RoundPending { kind, pending: false }).log(
                    now,
                    Direction::Internal,
                    Severity::Success,
                    LogCategory::Interrogation,
                    kind.label_text() + "收到完整匹配的 ACTTERM，已原子提交快照"@,
                ),
            ),
            OutcomeView::Abort(reason) => (None, round_failed(desk, kind, reason, now)),
            OutcomeView::Mismatch(reason) => (
                slot,
                desk.log(
                    now,
                    Direction::Internal,
                    Severity::Warning,
                    LogCategory::Interrogation,
                    kind.label_text() + "忽略不匹配响应: "@ + reason,
                ),
            ),
        },
    }
}

/// Takes a unit into a round.
pub fn process_round(
    slot: &mut Option<InterrogationRound>,
    kind: SnapshotKind,
    asdu: &Asdu,
    floats: &Vec<String>,
    expected: &ExpectedPoints,
    now: Moment,
    desk: &mut Desk,
)
    ensures
        (round_view(*final(slot)), final(desk)@) == after_unit(
            round_view(*old(slot)),
            old(desk)@,
            kind,
            asdu@,
            texts(floats@),
            expected@,
            now,
        ),
{
    let mut round = match slot.take() {
        Some(round) => round,
        None => {
            return;
        },
    };
    match evaluate_round(&mut round, kind, asdu, floats, now) {
        RoundOutcome::Unrelated => {
            *slot = Some(round);
        },
        RoundOutcome::Confirmed => {
            *slot = Some(round);
            desk.log(
                now,
                Direction::Internal,
                Severity::Success,
                LogCategory::Interrogation,
                cat(
                    kind.label().to_owned(),
                    "已收到完整匹配的正向 ACTCON，开始累积数据",
                ),
            );
        },
        RoundOutcome::Data(values) => {
            let ghost before = round.values@;
            let mut values = values;
            let ghost more = values@;
            round.values.append(&mut values);
            assert(rows(round.values@) =~= rows(before) + rows(more));
            *slot = Some(round);
        },
        RoundOutcome::Complete => {
            let values = match kind {
                SnapshotKind::General => expected.merge_general(&round.values),
                SnapshotKind::Energy => expected.merge_energy(&round.values),
            };
            desk.emit(RuntimeEvent::DispatchSnapshot { kind, values });
            desk.emit(RuntimeEvent::RoundPending { kind, pending: false });
            desk.log(
                now,
                Direction::Internal,
                Severity::Success,
                LogCategory::Interrogation,
                cat(kind.label().to_owned(), "收到完整匹配的 ACTTERM，已原子提交快照"),
            );
        },
        RoundOutcome::Abort(reason) => {
            report_failed_round(kind, reason.as_str(), now, desk);
        },
        RoundOutcome::Mismatch(reason) => {
            *slot = Some(round);
            let text = cat(kind.label().to_owned(), "忽略不匹配响应: ");
            desk.log(
                now,
                Direction::Internal,
                Severity::Warning,
                LogCategory::Interrogation,
                cat(text, reason.as_str()),
            );
        },
    }
}

// ---------------------------------------------------------------------------
// Laws of the rounds.
/// A side put out a snapshot since it was in an earlier state.
pub open spec fn snapshot_emitted(before: DeskState, after: DeskState, kind: SnapshotKind) -> bool {
    exists|i: int|
        before.outputs.len() <= i < after.outputs.len() && (#[trigger] after.outputs[i] matches
            crate::protocol::desk::OutputView::Event(
            EventView::DispatchSnapshot { kind: found, .. },
        ) && found == kind)
}

/// The header of a unit is the one that an answer to the request of a round
/// has.
pub open spec fn answers_round(round: RoundState, asdu: AsduView) -> bool {
    asdu.address_field == round.response_common_address && asdu.originator_address
        == round.request.originator_address && asdu.test == round.request.test
}

/// A snapshot is put out only when a round that was confirmed gets the positive
/// termination that matches its request in every field, and the round is over
/// with it.
pub proof fn law_snapshot_only_after_confirmation_and_termination(
    slot: Option<RoundState>,
    desk: DeskState,
    kind: SnapshotKind,
    asdu: AsduView,
    floats: Seq<Seq<char>>,
    points: Seq<DispatchPointView>,
    now: Moment,
)
    ensures
        ({
            let (after, shown) = after_unit(slot, desk, kind, asdu, floats, points, now);
            let complete = slot matches Some(round) && {
                &&& round.phase is Collecting
                &&& asdu.type_id == command_type(kind)
                &&& asdu.cot == COT_ACTIVATION_TERMINATION
                &&& !asdu.negative
                &&& answers_round(round, asdu)
                &&& qualifier_repeats(round.request, asdu.objects)
            };
            &&& snapshot_emitted(desk, shown, kind) <==> complete
            &&& complete ==> after is None
        }),
{
    let (after, shown) = after_unit(slot, desk, kind, asdu, floats, points, now);
    if let Some(round) = slot {
        if evaluated(round, kind, asdu, floats, now.wall_ms) is Complete {
            let i = desk.outputs.len() as int;
            assert(shown.outputs[i] == crate::protocol::desk::OutputView::Event(
                EventView::DispatchSnapshot {
                    kind,
                    values: merged(
                        expected_table(points, reported_purpose(kind)),
                        round.values,
                    ),
                },
            ));
        }
    }
}

/// A round that was begun for all stations is answered by the configured one,
/// and only the station that a round waits for can change the round.
pub proof fn law_only_the_answering_station_counts(
    rounds: RoundsState,
    desk: DeskState,
    request: DispatchRequest,
    configured: u16,
    timeout_ms: u64,
    round: RoundState,
    kind: SnapshotKind,
    asdu: AsduView,
    floats: Seq<Seq<char>>,
    points: Seq<DispatchPointView>,
    now: Moment,
)
    ensures
        request.common_address == u16::MAX && snapshot_kind(request.action) == Some(kind)
            && rounds.of(kind) is None ==> rounds.reserved(
            desk,
            request,
            configured,
            timeout_ms,
            now,
        ).0.of(kind)->0.response_common_address == configured,
        asdu.address_field != round.response_common_address ==> after_unit(
            Some(round),
            desk,
            kind,
            asdu,
            floats,
            points,
            now,
        ).0 == Some(round),
{
}

/// A second interrogation of a kind is refused while one is under way, and the
/// first goes on as it was.
pub proof fn law_one_round_of_a_kind(
    rounds: RoundsState,
    desk: DeskState,
    request: DispatchRequest,
    configured: u16,
    timeout_ms: u64,
    now: Moment,
)
    requires
        snapshot_kind(request.action) is Some,
    ensures
        ({
            let kind = snapshot_kind(request.action)->0;
            let (after, _, error) = rounds.reserved(desk, request, configured, timeout_ms, now);
            &&& error is Some <==> rounds.of(kind) is Some
            &&& error is Some ==> after == rounds
            &&& after.of(kind) is Some
        }),
{
}

/// A unit brings values of a round that collects them.
pub open spec fn brings_values(round: RoundState, kind: SnapshotKind, asdu: AsduView) -> bool {
    &&& collected_type(kind, asdu.type_id)
    &&& expected_cause(kind, round.request) == Some(asdu.cot)
    &&& answers_round(round, asdu)
    &&& !asdu.negative
}

/// The rows of units, one unit after the other.
pub open spec fn all_rows(
    units: Seq<AsduView>,
    floats: Seq<Seq<Seq<char>>>,
    updated: u64,
) -> Seq<PointRow>
    decreases units.len(),
{
    if units.len() == 0 {
        Seq::empty()
    } else {
        all_rows(units.drop_last(), floats, updated) + unit_rows(
            units.last(),
            floats[units.len() - 1],
            updated,
        )
    }
}

/// A round and a side after units came one after the other.
pub open spec fn after_units(
    slot: Option<RoundState>,
    desk: DeskState,
    kind: SnapshotKind,
    units: Seq<AsduView>,
    floats: Seq<Seq<Seq<char>>>,
    points: Seq<DispatchPointView>,
    now: Moment,
) -> (Option<RoundState>, DeskState)
    decreases units.len(),
{
    if units.len() == 0 {
        (slot, desk)
    } else {
        let (mid, shown) = after_units(slot, desk, kind, units.drop_last(), floats, points, now);
        after_unit(mid, shown, kind, units.last(), floats[units.len() - 1], points, now)
    }
}

/// A round that collects gathers the rows of every unit that brings values, in
/// their order, and reports nothing before it is terminated.
pub proof fn law_round_gathers_all_values(
    round: RoundState,
    desk: DeskState,
    kind: SnapshotKind,
    units: Seq<AsduView>,
    floats: Seq<Seq<Seq<char>>>,
    points: Seq<DispatchPointView>,
    now: Moment,
)
    requires
        round.phase is Collecting,
        forall|i: int|
            0 <= i < units.len() ==> brings_values(round, kind, #[trigger] units[i]),
    ensures
        after_units(Some(round), desk, kind, units, floats, points, now) == (
            Some(
                (RoundState {
                    values: round.values + all_rows(units, floats, now.wall_ms),
                    ..round
                }),
            ),
            desk,
        ),
    decreases units.len(),
{
    if units.len() == 0 {
        assert(round.values + Seq::<PointRow>::empty() =~= round.values);
    } else {
        let fewer = units.drop_last();
        assert forall|i: int| 0 <= i < fewer.len() implies brings_values(
            round,
            kind,
            #[trigger] fewer[i],
        ) by {
            assert(brings_values(round, kind, units[i]));
        }
        law_round_gathers_all_values(round, desk, kind, fewer, floats, points, now);
        let last = units.last();
        assert(brings_values(round, kind, units[units.len() - 1]));
        let rest = all_rows(fewer, floats, now.wall_ms);
        let more = unit_rows(last, floats[units.len() - 1], now.wall_ms);
        assert((round.values + rest) + more =~= round.values + (rest + more));
    }
}

/// A configured row of a snapshot holds nothing but what a value of its own
/// address and type brought.
pub proof fn law_snapshot_rows_are_of_their_type(
    expected: Seq<PointRow>,
    values: Seq<PointRow>,
    i: int,
)
    requires
        0 <= i < expected.len(),
        forall|j: int|
            0 <= j < values.len() ==> !((#[trigger] values[j]).ioa == expected[i].ioa
                && values[j].type_id == expected[i].type_id),
    ensures
        filled(expected, Agreement::Same, values)[i] == expected[i],
{
    crate::table::law_filling_keeps_rows(expected, Agreement::Same, values);
    let after = filled(expected, Agreement::Same, values);
    assert(crate::table::same_place(after[i], expected[i]));
    assert(crate::table::row_explained(expected[i], after[i], Agreement::Same, values));
    if after[i] != expected[i] {
        let j = choose|j: int|
            0 <= j < values.len() && crate::table::row_holds(
                expected[i],
                Agreement::Same,
                values[j].ioa,
                values[j].type_id,
            ) && after[i] == crate::table::carried(expected[i], #[trigger] values[j]);
        assert(values[j].ioa == expected[i].ioa && values[j].type_id == expected[i].type_id);
    }
}

/// A unit brings a value that a round of a kind collects: states and floats for
/// the general one, counters for the other.
pub open spec fn carries_values(kind: SnapshotKind, asdu: AsduView) -> bool {
    match (kind, asdu.type_id) {
        (SnapshotKind::General, TypeId::M_SP_NA_1) => true,
        (SnapshotKind::General, TypeId::M_DP_NA_1) => true,
        (SnapshotKind::General, TypeId::M_ME_NC_1) => true,
        (SnapshotKind::Energy, TypeId::M_IT_NA_1) => true,
        _ => false,
    }
}

/// The cause of the values that a round waits for, by the qualifier of its
/// request: the qualifier itself of a general interrogation; for counters the
/// general one, or that of the group.
pub open spec fn awaited_cause(kind: SnapshotKind, request: DispatchRequest) -> int {
    match kind {
        SnapshotKind::General => request.qoi as int,
        SnapshotKind::Energy => if request.qcc_request == 5 {
            37
        } else {
            37 + request.qcc_request
        },
    }
}

/// The qualifiers of a request are those that an interrogation may have.
pub open spec fn has_qualifiers(kind: SnapshotKind, request: DispatchRequest) -> bool {
    match kind {
        SnapshotKind::General => request.action is GeneralInterrogation && 20 <= request.qoi <= 36,
        SnapshotKind::Energy => request.action is CounterInterrogation && 1 <= request.qcc_request
            <= 5,
    }
}

/// A unit is from the station, for the originator and of the test mode of a
/// round.
pub open spec fn is_for_round(round: RoundState, asdu: AsduView) -> bool {
    asdu.address_field == round.response_common_address && asdu.originator_address
        == round.request.originator_address && asdu.test == round.request.test
}

/// A unit confirms or terminates the command of a round: it is of the type of the
/// command and repeats its one object, with all qualifiers.
pub open spec fn repeats_command(round: RoundState, kind: SnapshotKind, asdu: AsduView) -> bool {
    &&& match kind {
        SnapshotKind::General => asdu.type_id is C_IC_NA_1,
        SnapshotKind::Energy => asdu.type_id is C_CI_NA_1,
    }
    &&& asdu.objects matches ObjectsView::Known(objects) && objects.len() == 1
        && objects[0].address == 0 && match kind {
        SnapshotKind::General => objects[0].element == (Element::Interrogation {
            qoi: round.request.qoi,
        }),
        SnapshotKind::Energy => objects[0].element == (Element::CounterInterrogation {
            rqt: round.request.qcc_request,
            frz: round.request.qcc_freeze,
        }),
    }
}

/// A round that collects gathers exactly the positive units for it that bring
/// values of its types under its cause, row by row behind those that it has. Such
/// a unit puts nothing out.
pub proof fn law_rounds_gather_their_types(
    round: RoundState,
    desk: DeskState,
    kind: SnapshotKind,
    asdu: AsduView,
    floats: Seq<Seq<char>>,
    points: Seq<DispatchPointView>,
    now: Moment,
)
    requires
        has_qualifiers(kind, round.request),
    ensures
        ({
            let (after, shown) = after_unit(Some(round), desk, kind, asdu, floats, points, now);
            let gathers = round.phase is Collecting && carries_values(kind, asdu) && asdu.cot
                == awaited_cause(kind, round.request) && is_for_round(round, asdu)
                && !asdu.negative;
            &&& gathers ==> after == Some(
                (RoundState {
                    values: round.values + unit_rows(asdu, floats, now.wall_ms),
                    ..round
                }),
            ) && shown == desk
            &&& !gathers && after is Some ==> after->0.values == round.values
            &&& (evaluated(round, kind, asdu, floats, now.wall_ms) is Data) <==> gathers
        }),
{
}

/// A positive confirmation that is for a round and repeats its command opens it,
/// and nothing else does. A negative unit that is for the round and repeats its
/// type, or brings values under its cause, ends it as an error, with nothing
/// gathered. Other units leave the round as it is.
pub proof fn law_rounds_open_and_fail(
    round: RoundState,
    desk: DeskState,
    kind: SnapshotKind,
    asdu: AsduView,
    floats: Seq<Seq<char>>,
    points: Seq<DispatchPointView>,
    now: Moment,
)
    requires
        has_qualifiers(kind, round.request),
    ensures
        ({
            let (after, shown) = after_unit(Some(round), desk, kind, asdu, floats, points, now);
            let command = match kind {
                SnapshotKind::General => asdu.type_id is C_IC_NA_1,
                SnapshotKind::Energy => asdu.type_id is C_CI_NA_1,
            } && (asdu.cot == 7 || asdu.cot == 10);
            let values = carries_values(kind, asdu) && asdu.cot == awaited_cause(
                kind,
                round.request,
            );
            let confirms = is_for_round(round, asdu) && repeats_command(round, kind, asdu)
                && asdu.cot == 7 && !asdu.negative;
            let fails = is_for_round(round, asdu) && asdu.negative && (command || values);
            &&& confirms ==> after == Some(
                (RoundState { phase: RoundPhase::Collecting, ..round }),
            ) && (added_line(desk, shown) matches Some(line) && line.severity is Success)
            &&& round.phase is AwaitActcon && !confirms && after is Some ==> after->0.phase
                is AwaitActcon
            &&& round.phase is Collecting && after is Some ==> after->0.phase is Collecting
            &&& fails ==> after is None && shown.outputs.len() == desk.outputs.len() + 2
                && shown.outputs[desk.outputs.len() as int] == OutputView::Event(
                EventView::RoundPending { kind, pending: false },
            ) && (shown.outputs.last() matches OutputView::Event(EventView::Log(line))
                && line.severity is Error)
            &&& after is None ==> fails || (round.phase is Collecting && is_for_round(round, asdu)
                && repeats_command(round, kind, asdu) && asdu.cot == 10 && !asdu.negative)
            &&& after is Some ==> after->0.request == round.request
                && after->0.response_common_address == round.response_common_address
                && after->0.deadline == round.deadline
        }),
{
    law_entries_are_of_their_side(
        desk,
        now,
        Direction::Internal,
        Severity::Success,
        LogCategory::Interrogation,
        kind.label_text() + "已收到完整匹配的正向 ACTCON，开始累积数据"@,
    );
}

/// The termination of a round that collects puts out one snapshot: every point
/// that is expected of the interrogation has its row, and every value that was
/// gathered is shown, unless a later one of its address and type was. The round is
/// over then.
pub proof fn law_snapshots_show_what_was_gathered(
    round: RoundState,
    desk: DeskState,
    kind: SnapshotKind,
    asdu: AsduView,
    floats: Seq<Seq<char>>,
    points: Seq<DispatchPointView>,
    now: Moment,
    j: int,
)
    requires
        has_qualifiers(kind, round.request),
        round.phase is Collecting,
        is_for_round(round, asdu),
        repeats_command(round, kind, asdu),
        asdu.cot == 10,
        !asdu.negative,
        0 <= j < round.values.len(),
        forall|k: int|
            j < k < round.values.len() ==> !((#[trigger] round.values[k]).ioa
                == round.values[j].ioa && round.values[k].type_id == round.values[j].type_id),
    ensures
        ({
            let (after, shown) = after_unit(Some(round), desk, kind, asdu, floats, points, now);
            &&& after is None
            &&& shown.outputs.len() > desk.outputs.len()
            &&& shown.outputs[desk.outputs.len() as int] matches OutputView::Event(
                EventView::DispatchSnapshot { kind: found, values },
            ) && found == kind && shows(values, Agreement::Same, round.values[j]) && (forall|i: int|
                0 <= i < points.len() && (#[trigger] points[i]).purpose == (match kind {
                    SnapshotKind::General => DispatchPointPurpose::ExpectedGeneral,
                    SnapshotKind::Energy => DispatchPointPurpose::ExpectedEnergy,
                }) ==> has_point_row(values, points[i]))
        }),
{
    let expected = expected_table(points, reported_purpose(kind));
    let full = filled(expected, Agreement::Same, round.values);
    let values = merged(expected, round.values);
    law_every_value_is_shown(expected, Agreement::Same, round.values, j);
    lemma_sorting_keeps_items(full, rows_by_address());
    let value = round.values[j];
    let i = choose|i: int|
        0 <= i < full.len() && (#[trigger] full[i]).ioa == value.ioa && may_share(
            Agreement::Same,
            full[i].type_id,
            value.type_id,
        ) && full[i].value == value.value && full[i].quality == value.quality && full[i].updated_ms
            == value.updated_ms;
    assert(full.contains(full[i]));
    assert(values.contains(full[i]));
    let k = choose|k: int| 0 <= k < values.len() && values[k] == full[i];
    assert(values[k].ioa == value.ioa);
    let purpose = reported_purpose(kind);
    law_expected_points_have_rows(points, purpose);
    crate::table::law_filling_keeps_rows(expected, Agreement::Same, round.values);
    assert forall|n: int| 0 <= n < points.len() && (#[trigger] points[n]).purpose == purpose implies
        has_point_row(values, points[n]) by {
        let m = choose|m: int|
            0 <= m < expected.len() && (#[trigger] expected[m]).ioa == points[n].ioa
                && expected[m].name == points[n].name && expected[m].type_id
                == points[n].kind.type_id_text() && expected[m].configured
                && expected[m].value is None && expected[m].updated_ms is None;
        assert(crate::table::same_place(full[m], expected[m]));
        assert(full.contains(full[m]));
        assert(values.contains(full[m]));
        let at = choose|at: int| 0 <= at < values.len() && values[at] == full[m];
        assert(values[at].ioa == points[n].ioa);
    }
}

/// A table has the configured row of a point.
pub open spec fn has_point_row(table: Seq<PointRow>, point: DispatchPointView) -> bool {
    exists|k: int|
        0 <= k < table.len() && (#[trigger] table[k]).ioa == point.ioa && table[k].name
            == point.name && table[k].type_id == point.kind.type_id_text() && table[k].configured
}

/// A point stands for values or commands of its own type, by which the rows that
/// come are told apart.
pub proof fn law_points_stand_for_their_types(kind: DispatchPointKind)
    ensures
        kind.type_id_text() == (match kind {
            DispatchPointKind::SinglePoint => TypeId::M_SP_NA_1,
            DispatchPointKind::DoublePoint => TypeId::M_DP_NA_1,
            DispatchPointKind::Float => TypeId::M_ME_NC_1,
            DispatchPointKind::Counter => TypeId::M_IT_NA_1,
            DispatchPointKind::SingleControl => TypeId::C_SC_NA_1,
            DispatchPointKind::DoubleControl => TypeId::C_DC_NA_1,
            DispatchPointKind::RegulatingStep => TypeId::C_RC_NA_1,
            DispatchPointKind::NormalizedSetpoint => TypeId::C_SE_NA_1,
            DispatchPointKind::ScaledSetpoint => TypeId::C_SE_NB_1,
            DispatchPointKind::FloatSetpoint => TypeId::C_SE_NC_1,
        }).mnemonic(),
{
}

/// What a station reports is what a snapshot shows: of a unit with floats, with
/// states or with counters that comes between confirmation and termination, the
/// last object of an address is in the snapshot under that address and type, with
/// the value that the object holds.
pub proof fn law_reported_values_reach_the_snapshot(
    round: RoundState,
    desk: DeskState,
    kind: SnapshotKind,
    data: AsduView,
    objects: Seq<InformationObject>,
    termination: AsduView,
    floats: Seq<Seq<char>>,
    points: Seq<DispatchPointView>,
    now: Moment,
    i: int,
)
    requires
        has_qualifiers(kind, round.request),
        round.phase is Collecting,
        carries_values(kind, data),
        data.cot == awaited_cause(kind, round.request),
        is_for_round(round, data),
        !data.negative,
        data.objects == ObjectsView::Known(objects),
        objects_valid(data.type_id, objects),
        0 <= i < objects.len(),
        i < floats.len(),
        forall|k: int| i < k < objects.len() ==> (#[trigger] objects[k]).address != objects[i].address,
        is_for_round(round, termination),
        repeats_command(round, kind, termination),
        termination.cot == 10,
        !termination.negative,
    ensures
        ({
            let (open, mid) = after_unit(Some(round), desk, kind, data, floats, points, now);
            let (after, shown) = after_unit(open, mid, kind, termination, floats, points, now);
            &&& after is None
            &&& shown.outputs[desk.outputs.len() as int] matches OutputView::Event(
                EventView::DispatchSnapshot { kind: found, values },
            ) && found == kind && exists|k: int|
                0 <= k < values.len() && (#[trigger] values[k]).ioa == objects[i].address
                    && values[k].type_id == data.type_id.mnemonic() && values[k].value == Some(
                    match objects[i].element {
                        Element::SinglePoint { siq } => if siq.spi is On {
                            "1/合"@
                        } else {
                            "0/分"@
                        },
                        Element::DoublePoint { diq } => match diq.dpi {
                            Dpi::Indeterminate => "0/不确定"@,
                            Dpi::Off => "1/分"@,
                            Dpi::On => "2/合"@,
                            Dpi::Invalid => "3/无效"@,
                        },
                        Element::Counter { bcr, .. } => signed_decimal(bcr as int),
                        _ => floats[i],
                    },
                )
        }),
{
    let (open, mid) = after_unit(Some(round), desk, kind, data, floats, points, now);
    law_rounds_gather_their_types(round, desk, kind, data, floats, points, now);
    let gathered = open->0;
    let fresh = value_rows(objects, floats, now.wall_ms);
    assert forall|k: int| 0 <= k < objects.len() implies value_row(
        #[trigger] objects[k],
        float_text(floats, k),
        now.wall_ms,
    ) is Some by {
        assert(objects[k].element.kind() == data.type_id);
        law_received_values_get_rows(objects[k], float_text(floats, k), now.wall_ms);
    }
    assert forall|k: int| 0 <= k < objects.len() implies fresh.len() == objects.len() && Some(
        #[trigger] fresh[k],
    ) == value_row(objects[k], float_text(floats, k), now.wall_ms) by {
        law_every_received_value_has_its_row(objects, floats, now.wall_ms, k);
    }
    let j = round.values.len() + i;
    assert(Some(fresh[i]) == value_row(objects[i], float_text(floats, i), now.wall_ms));
    assert(gathered.values[j] == fresh[i]);
    assert forall|k: int| j < k < gathered.values.len() implies !((
    #[trigger] gathered.values[k]).ioa == gathered.values[j].ioa && gathered.values[k].type_id
        == gathered.values[j].type_id) by {
        let n = k - round.values.len();
        assert(gathered.values[k] == fresh[n]);
        law_received_values_get_rows(objects[n], float_text(floats, n), now.wall_ms);
        law_received_values_get_rows(objects[i], float_text(floats, i), now.wall_ms);
        assert(objects[n].address != objects[i].address);
    }
    law_snapshots_show_what_was_gathered(
        gathered,
        mid,
        kind,
        termination,
        floats,
        points,
        now,
        j,
    );
    assert(objects[i].element.kind() == data.type_id);
    law_received_values_get_rows(objects[i], float_text(floats, i), now.wall_ms);
    let (after, shown) = after_unit(open, mid, kind, termination, floats, points, now);
    let values = shown.outputs[desk.outputs.len() as int]->Event_0->DispatchSnapshot_values;
    let k = choose|k: int|
        0 <= k < values.len() && (#[trigger] values[k]).ioa == fresh[i].ioa && may_share(
            Agreement::Same,
            values[k].type_id,
            fresh[i].type_id,
        ) && values[k].value == fresh[i].value && values[k].quality == fresh[i].quality
            && values[k].updated_ms == fresh[i].updated_ms;
    assert(values[k].ioa == objects[i].address);
}

/// The table of expected points has one row for each point of the purpose, and no
/// other: with its address, its name and the name of its type, configured and
/// without a value yet.
pub proof fn law_expected_points_have_rows(
    points: Seq<DispatchPointView>,
    purpose: DispatchPointPurpose,
)
    ensures
        ({
            let table = expected_table(points, purpose);
            let blank = |point: DispatchPointView, row: PointRow|
                row.ioa == point.ioa && row.name == point.name && row.type_id
                    == point.kind.type_id_text() && row.configured && row.value is None
                    && row.updated_ms is None;
            &&& table.len() == points.filter(|point: DispatchPointView| point.purpose == purpose).len()
            &&& forall|i: int|
                0 <= i < points.len() && (#[trigger] points[i]).purpose == purpose ==> exists|
                    k: int,
                |
                    0 <= k < table.len() && blank(points[i], #[trigger] table[k])
            &&& forall|k: int|
                0 <= k < table.len() ==> exists|i: int|
                    0 <= i < points.len() && points[i].purpose == purpose && blank(
                        #[trigger] points[i],
                        #[trigger] table[k],
                    )
        }),
{
    let found = purpose_rows(points, purpose);
    let table = expected_table(points, purpose);
    let blank = |point: DispatchPointView, row: PointRow|
        row.ioa == point.ioa && row.name == point.name && row.type_id == point.kind.type_id_text()
            && row.configured && row.value is None && row.updated_ms is None;
    lemma_purpose_rows(points, purpose);
    lemma_sorting_keeps_items(found, rows_by_address());
    assert forall|i: int|
        0 <= i < points.len() && (#[trigger] points[i]).purpose == purpose implies exists|k: int|
        0 <= k < table.len() && blank(points[i], #[trigger] table[k]) by {
        let row = expected_row(points[i]);
        assert(found.contains(row));
        assert(table.contains(row));
        let k = choose|k: int| 0 <= k < table.len() && table[k] == row;
        assert(blank(points[i], table[k]));
    }
    assert forall|k: int| 0 <= k < table.len() implies exists|i: int|
        0 <= i < points.len() && points[i].purpose == purpose && blank(
            #[trigger] points[i],
            #[trigger] table[k],
        ) by {
        assert(table.contains(table[k]));
        assert(found.contains(table[k]));
        let n = choose|n: int| 0 <= n < found.len() && found[n] == table[k];
        assert(is_row_of_some_point(points, purpose, found[n]));
        let i = choose|i: int|
            0 <= i < points.len() && (#[trigger] points[i]).purpose == purpose && found[n]
                == expected_row(points[i]);
        assert(blank(points[i], table[k]));
    }
}

spec fn is_row_of_some_point(
    points: Seq<DispatchPointView>,
    purpose: DispatchPointPurpose,
    row: PointRow,
) -> bool {
    exists|i: int|
        0 <= i < points.len() && (#[trigger] points[i]).purpose == purpose && row == expected_row(
            points[i],
        )
}

proof fn lemma_purpose_rows(points: Seq<DispatchPointView>, purpose: DispatchPointPurpose)
    ensures
        ({
            let found = purpose_rows(points, purpose);
            &&& found.len() == points.filter(|point: DispatchPointView| point.purpose == purpose).len()
            &&& forall|i: int|
                0 <= i < points.len() && (#[trigger] points[i]).purpose == purpose
                    ==> found.contains(expected_row(points[i]))
            &&& forall|n: int|
                0 <= n < found.len() ==> is_row_of_some_point(points, purpose, #[trigger] found[n])
        }),
    decreases points.len(),
{
    reveal(Seq::filter);
    if points.len() > 0 {
        let fewer = points.drop_last();
        lemma_purpose_rows(fewer, purpose);
        let before = purpose_rows(fewer, purpose);
        let found = purpose_rows(points, purpose);
        assert forall|i: int|
            0 <= i < points.len() && (#[trigger] points[i]).purpose == purpose implies found.contains(
            expected_row(points[i]),
        ) by {
            if i < fewer.len() {
                assert(fewer[i] == points[i]);
                assert(before.contains(expected_row(fewer[i])));
                let n = choose|n: int| 0 <= n < before.len() && before[n] == expected_row(fewer[i]);
                assert(found[n] == before[n]);
            } else {
                assert(found[before.len() as int] == expected_row(points[i]));
            }
        }
        assert forall|n: int| 0 <= n < found.len() implies is_row_of_some_point(
            points,
            purpose,
            #[trigger] found[n],
        ) by {
            if n < before.len() {
                assert(found[n] == before[n]);
                assert(is_row_of_some_point(fewer, purpose, before[n]));
                let i = choose|i: int|
                    0 <= i < fewer.len() && (#[trigger] fewer[i]).purpose == purpose && before[n]
                        == expected_row(fewer[i]);
                assert(points[i] == fewer[i]);
            } else {
                assert(points[points.len() - 1].purpose == purpose);
            }
        }
    }
}

/// An interrogation begins a round where none of its kind is under way: it waits
/// for the confirmation, with nothing gathered, of the station that was asked, or
/// of the configured one where all were, until its time is over. A round of the
/// other kind goes on.
pub proof fn law_interrogations_begin_rounds(
    rounds: RoundsState,
    desk: DeskState,
    request: DispatchRequest,
    configured: u16,
    timeout_ms: u64,
    now: Moment,
)
    ensures
        ({
            let (after, shown, error) = rounds.reserved(
                desk,
                request,
                configured,
                timeout_ms,
                now,
            );
            let begun = RoundState {
                request,
                response_common_address: if request.common_address == 65535 {
                    configured
                } else {
                    request.common_address
                },
                phase: RoundPhase::AwaitActcon,
                deadline: if now.tick_ms + timeout_ms <= u64::MAX {
                    (now.tick_ms + timeout_ms) as u64
                } else {
                    u64::MAX
                },
                values: Seq::empty(),
            };
            &&& request.action is GeneralInterrogation && rounds.general is None ==> error is None
                && after == RoundsState { general: Some(begun), ..rounds }
            &&& request.action is CounterInterrogation && rounds.energy is None ==> error is None
                && after == RoundsState { energy: Some(begun), ..rounds }
            &&& request.action is GeneralInterrogation && rounds.general is Some ==> error is Some
                && after == rounds && shown == desk
            &&& request.action is CounterInterrogation && rounds.energy is Some ==> error is Some
                && after == rounds && shown == desk
            &&& request.action !is GeneralInterrogation && request.action !is CounterInterrogation
                ==> error is None && after == rounds && shown == desk
        }),
{
}

/// A round whose time is over is given up with an error, and one whose time is
/// not goes on; giving up ends both.
pub proof fn law_rounds_end_with_their_time(
    rounds: RoundsState,
    desk: DeskState,
    reason: Seq<char>,
    now: Moment,
)
    ensures
        ({
            let (after, shown) = rounds.expired(desk, now);
            let late = |round: Option<RoundState>|
                round matches Some(round) && round.deadline <= now.tick_ms;
            &&& after.general == (if late(rounds.general) {
                None
            } else {
                rounds.general
            })
            &&& after.energy == (if late(rounds.energy) {
                None
            } else {
                rounds.energy
            })
            &&& !late(rounds.general) && !late(rounds.energy) ==> shown == desk
            &&& late(rounds.general) || late(rounds.energy) ==> (shown.outputs.last() matches
                OutputView::Event(EventView::Log(line)) && line.severity is Error)
        }),
        ({
            let (after, shown) = rounds.all_aborted(desk, reason, now);
            &&& after.general is None && after.energy is None
            &&& rounds.general is None && rounds.energy is None ==> shown == desk
        }),
{
}

} // verus!
