//! Commands that the dispatching side has sent and whose receipts it awaits.

use crate::model::{
    ControlPhase, Direction, DispatchAction, DispatchRequest, EventView, LogCategory, Moment,
    RuntimeEvent, Severity,
};
use crate::number::{SINGLE_HIDDEN, SINGLE_SIGN};
use crate::protocol::asdu::{build_dispatch_request, request_may_become, unit_view};
use crate::protocol::desk::{
    added_line, error_view, law_entries_are_of_their_side, Desk, DeskState, OutputView,
};
use crate::protocol::element::{Element, InformationObject, TypeId};
use crate::protocol::iec::{cot_name, iec_cot_name, iec_type_name, type_mnemonic};
use crate::protocol::message::{
    Asdu, AsduView, InformationObjects, ObjectsView, COT_ACTIVATION_CONFIRMATION,
    COT_ACTIVATION_TERMINATION,
};
use crate::protocol::round::{answering_address, response_address};
use crate::protocol::wire::saturated_sum;
use crate::text::{bool_text, cat, cat_bool, cat_number, decimal};
use vstd::prelude::*;

verus! {

// ---------------------------------------------------------------------------
// Objects that are the same.
pub open spec fn single_nan(bits: u32) -> bool {
    bits as int % (SINGLE_SIGN as int) > 255 * (SINGLE_HIDDEN as int)
}

pub open spec fn single_zero(bits: u32) -> bool {
    bits as int % (SINGLE_SIGN as int) == 0
}

/// Two singles are equal as numbers: the zeros are, and what is no number is
/// not.
pub open spec fn singles_equal(left: u32, right: u32) -> bool {
    !single_nan(left) && !single_nan(right) && (left == right || (single_zero(left) && single_zero(
        right,
    )))
}

fn equal_singles(left: u32, right: u32) -> (result: bool)
    ensures
        result == singles_equal(left, right),
{
    let infinity: u32 = 255 * SINGLE_HIDDEN;
    let left_magnitude: u32 = left % SINGLE_SIGN;
    let right_magnitude: u32 = right % SINGLE_SIGN;
    left_magnitude <= infinity && right_magnitude <= infinity && (left == right || (left_magnitude
        == 0 && right_magnitude == 0))
}

/// Two elements are equal, their floats as numbers.
pub open spec fn elements_equal(left: Element, right: Element) -> bool {
    match (left, right) {
        (
            Element::FloatSetpoint { bits: a, qos: first },
            Element::FloatSetpoint { bits: b, qos: second },
        ) => singles_equal(a, b) && first == second,
        (
            Element::ShortFloat { bits: a, qds: first },
            Element::ShortFloat { bits: b, qds: second },
        ) => singles_equal(a, b) && first == second,
        _ => left == right,
    }
}

fn equal_elements(left: Element, right: Element) -> (result: bool)
    ensures
        result == elements_equal(left, right),
{
    match (left, right) {
        (
            Element::FloatSetpoint { bits: a, qos: first },
            Element::FloatSetpoint { bits: b, qos: second },
        ) => equal_singles(a, b) && first == second,
        (
            Element::ShortFloat { bits: a, qds: first },
            Element::ShortFloat { bits: b, qds: second },
        ) => equal_singles(a, b) && first == second,
        _ => left == right,
    }
}

/// The known objects of two units are equal.
pub open spec fn objects_equal(left: ObjectsView, right: ObjectsView) -> bool {
    match (left, right) {
        (ObjectsView::Known(left), ObjectsView::Known(right)) => left.len() == right.len()
            && forall|i: int|
            0 <= i < left.len() ==> (#[trigger] left[i]).address == right[i].address
                && elements_equal(left[i].element, right[i].element),
        _ => false,
    }
}

fn equal_lists(left: &Vec<InformationObject>, right: &Vec<InformationObject>) -> (result: bool)
    ensures
        result == objects_equal(ObjectsView::Known(left@), ObjectsView::Known(right@)),
{
    if left.len() != right.len() {
        return false;
    }
    let mut index: usize = 0;
    while index < left.len()
        invariant
            index <= left@.len(),
            left@.len() == right@.len(),
            forall|i: int|
                0 <= i < index ==> (#[trigger] left@[i]).address == right@[i].address
                    && elements_equal(left@[i].element, right@[i].element),
        decreases left.len() - index,
    {
        if left[index].address != right[index].address || !equal_elements(
            left[index].element,
            right[index].element,
        ) {
            return false;
        }
        index += 1;
    }
    true
}

fn equal_objects(left: &InformationObjects, right: &InformationObjects) -> (result: bool)
    ensures
        result == objects_equal(left@, right@),
{
    match (left, right) {
        (InformationObjects::Known(left), InformationObjects::Known(right)) => equal_lists(
            left,
            right,
        ),
        _ => false,
    }
}

// ---------------------------------------------------------------------------
// Pending commands.
/// A command whose receipt is awaited.
#[derive(Debug, Clone)]
pub struct PendingApplication {
    pub request: DispatchRequest,
    /// The unit that was sent.
    pub expected: Asdu,
    pub response_common_address: u16,
    pub deadline: u64,
    /// The command was confirmed.
    pub accepted: bool,
}

#[verifier::ext_equal]
pub struct ApplicationState {
    pub request: DispatchRequest,
    pub expected: AsduView,
    pub response_common_address: u16,
    pub deadline: u64,
    pub accepted: bool,
}

impl View for PendingApplication {
    type V = ApplicationState;

    open spec fn view(&self) -> ApplicationState {
        ApplicationState {
            request: self.request,
            expected: self.expected@,
            response_common_address: self.response_common_address,
            deadline: self.deadline,
            accepted: self.accepted,
        }
    }
}

impl ApplicationState {
    /// A unit is a receipt of this command: type, addresses, test flag and
    /// objects are those that were sent.
    pub open spec fn receives(self, asdu: AsduView) -> bool {
        asdu.type_id == self.expected.type_id && asdu.address_field == self.response_common_address
            && asdu.originator_address == self.expected.originator_address && asdu.test
            == self.expected.test && objects_equal(asdu.objects, self.expected.objects)
    }
}

impl PendingApplication {
    pub fn matches(&self, asdu: &Asdu) -> (result: bool)
        ensures
            result == self@.receives(asdu@),
    {
        asdu.type_id == self.expected.type_id && asdu.address_field == self.response_common_address
            && asdu.originator_address == self.expected.originator_address && asdu.test
            == self.expected.test && equal_objects(
            &asdu.information_objects,
            &self.expected.information_objects,
        )
    }
}

/// The types of the commands that are confirmed.
pub open spec fn confirmed_type(type_id: TypeId) -> bool {
    type_id is C_SC_NA_1 || type_id is C_DC_NA_1 || type_id is C_RC_NA_1 || type_id is C_SE_NA_1
        || type_id is C_SE_NB_1 || type_id is C_SE_NC_1 || type_id is C_CS_NA_1
}

/// A unit confirms or terminates a command.
pub open spec fn application_receipt(asdu: AsduView) -> bool {
    confirmed_type(asdu.type_id) && (asdu.cot == COT_ACTIVATION_CONFIRMATION || asdu.cot
        == COT_ACTIVATION_TERMINATION)
}

pub fn is_application_confirmation(asdu: &Asdu) -> (result: bool)
    ensures
        result == application_receipt(asdu@),
{
    matches!(
        asdu.type_id,
        TypeId::C_SC_NA_1
            | TypeId::C_DC_NA_1
            | TypeId::C_RC_NA_1
            | TypeId::C_SE_NA_1
            | TypeId::C_SE_NB_1
            | TypeId::C_SE_NC_1
            | TypeId::C_CS_NA_1
    ) && (asdu.cot == COT_ACTIVATION_CONFIRMATION || asdu.cot == COT_ACTIVATION_TERMINATION)
}

/// The commands whose receipts are awaited, in the order in which they were
/// sent.
#[derive(Debug, Clone)]
pub struct PendingApplications {
    pub entries: Vec<PendingApplication>,
}

pub open spec fn application_views(entries: Seq<PendingApplication>) -> Seq<ApplicationState> {
    entries.map_values(|entry: PendingApplication| entry@)
}

impl View for PendingApplications {
    type V = Seq<ApplicationState>;

    open spec fn view(&self) -> Seq<ApplicationState> {
        application_views(self.entries@)
    }
}

/// The commands whose receipts are awaited.
pub open spec fn awaits_receipt(action: DispatchAction) -> bool {
    action.control() || action is ClockSync
}

/// What the receipt of a command may be compared with, where it is awaited: what
/// the command becomes once more, after it was sent. A clock command without a
/// time reads the clock again.
pub open spec fn may_be_expected(
    awaited: bool,
    request: DispatchRequest,
    expected: Result<Option<AsduView>, Seq<char>>,
) -> bool {
    awaited ==> request_may_become(request, expected)
}

/// The pending commands after one was sent, and why its receipt is not awaited
/// where it should be.
pub open spec fn registered(
    pending: Seq<ApplicationState>,
    request: DispatchRequest,
    expected: Result<Option<AsduView>, Seq<char>>,
    configured_common_address: u16,
    timeout_ms: u64,
    now: Moment,
) -> (Seq<ApplicationState>, Option<Seq<char>>) {
    if awaits_receipt(request.action) {
        match expected {
            Err(text) => (pending, Some(text)),
            Ok(None) => (pending, Some(request.action.label_text() + " 没有应用 ASDU"@)),
            Ok(Some(unit)) => (
                pending.push(
                    ApplicationState {
                        request,
                        expected: unit,
                        response_common_address: answering_address(
                            request.common_address,
                            configured_common_address,
                        ),
                        deadline: saturated_sum(now.tick_ms, timeout_ms),
                        accepted: false,
                    },
                ),
                None,
            ),
        }
    } else {
        (pending, None)
    }
}

/// The first pending command that a unit is a receipt of.
pub open spec fn receiver(pending: Seq<ApplicationState>, asdu: AsduView) -> Option<int>
    decreases pending.len(),
{
    if pending.len() == 0 {
        None
    } else {
        match receiver(pending.drop_last(), asdu) {
            Some(index) => Some(index),
            None => if pending.last().receives(asdu) {
                Some(pending.len() - 1)
            } else {
                None
            },
        }
    }
}

pub proof fn lemma_receiver(pending: Seq<ApplicationState>, asdu: AsduView)
    ensures
        match receiver(pending, asdu) {
            Some(index) => 0 <= index < pending.len() && pending[index].receives(asdu) && forall|
                i: int,
            |
                0 <= i < index ==> !(#[trigger] pending[i]).receives(asdu),
            None => forall|i: int| 0 <= i < pending.len() ==> !(#[trigger] pending[i]).receives(asdu),
        },
    decreases pending.len(),
{
    if pending.len() > 0 {
        let before = pending.drop_last();
        lemma_receiver(before, asdu);
        assert forall|i: int| 0 <= i < before.len() implies before[i] == #[trigger] pending[i] by {}
    }
}

proof fn lemma_first_receiver(pending: Seq<ApplicationState>, asdu: AsduView, index: int)
    requires
        0 <= index < pending.len(),
        pending[index].receives(asdu),
        forall|i: int| 0 <= i < index ==> !(#[trigger] pending[i]).receives(asdu),
    ensures
        receiver(pending, asdu) == Some(index),
{
    lemma_receiver(pending, asdu);
    let found = receiver(pending, asdu);
    if found is None {
        assert(!pending[index].receives(asdu));
    } else if found->0 < index {
        assert(!pending[found->0].receives(asdu));
    } else if found->0 > index {
        assert(!pending[index].receives(asdu));
    }
}

/// What becomes of the command that a receipt is for.
#[derive(Debug, Clone, Copy, PartialEq, Eq, Structural)]
pub enum Verdict {
    /// The confirmation is negative: the command is over.
    Refused,
    /// The command needs no more than the confirmation: it is over.
    Confirmed,
    /// The command is confirmed, and its termination is awaited.
    Accepted,
    /// The termination is negative: the command is over.
    Failed,
    /// The command is over.
    Done,
    /// A termination came before the confirmation.
    Early,
}

/// What becomes of a command with a receipt.
pub open spec fn verdict_of(entry: ApplicationState, asdu: AsduView) -> Verdict {
    if asdu.cot == COT_ACTIVATION_CONFIRMATION {
        if asdu.negative {
            Verdict::Refused
        } else if entry.request.action is ClockSync || entry.request.phase is Select {
            Verdict::Confirmed
        } else {
            Verdict::Accepted
        }
    } else if asdu.negative {
        Verdict::Failed
    } else if entry.accepted {
        Verdict::Done
    } else {
        Verdict::Early
    }
}

impl Verdict {
    pub open spec fn severity(self) -> Severity {
        match self {
            Verdict::Refused | Verdict::Failed => Severity::Error,
            Verdict::Early => Severity::Warning,
            _ => Severity::Success,
        }
    }

    pub open spec fn text(self) -> Seq<char> {
        match self {
            Verdict::Refused => " 收到否定 ACTCON"@,
            Verdict::Confirmed => " 收到完整匹配的 ACTCON"@,
            Verdict::Accepted => " 已接受，等待 ACTTERM"@,
            Verdict::Failed => " 收到否定 ACTTERM"@,
            Verdict::Done => " 已完成，回执字段全部匹配"@,
            Verdict::Early => " 在正向 ACTCON 前收到 ACTTERM，已忽略"@,
        }
    }

    fn level(self) -> (result: Severity)
        ensures
            result == self.severity(),
    {
        match self {
            Verdict::Refused | Verdict::Failed => Severity::Error,
            Verdict::Early => Severity::Warning,
            Verdict::Confirmed | Verdict::Accepted | Verdict::Done => Severity::Success,
        }
    }

    fn label(self) -> (result: &'static str)
        ensures
            result@ == self.text(),
    {
        match self {
            Verdict::Refused => " 收到否定 ACTCON",
            Verdict::Confirmed => " 收到完整匹配的 ACTCON",
            Verdict::Accepted => " 已接受，等待 ACTTERM",
            Verdict::Failed => " 收到否定 ACTTERM",
            Verdict::Done => " 已完成，回执字段全部匹配",
            Verdict::Early => " 在正向 ACTCON 前收到 ACTTERM，已忽略",
        }
    }
}

/// The pending commands after a verdict on one of them.
pub open spec fn judged(pending: Seq<ApplicationState>, index: int, verdict: Verdict) -> Seq<
    ApplicationState,
> {
    match verdict {
        Verdict::Accepted => pending.update(
            index,
            ApplicationState { accepted: true, ..pending[index] },
        ),
        Verdict::Early => pending,
        _ => pending.remove(index),
    }
}

/// How a command is named in the log.
pub open spec fn command_name(request: DispatchRequest) -> Seq<char> {
    request.action.label_text() + " IOA="@ + decimal(request.ioa as nat)
}

fn command_label(request: &DispatchRequest) -> (result: String)
    ensures
        result@ == command_name(*request),
{
    cat_number(cat(request.action.label().to_owned(), " IOA="), request.ioa as u64)
}

pub open spec fn stray_receipt_text(asdu: AsduView) -> Seq<char> {
    "收到未关联的应用回执：TypeID="@ + iec_type_name(asdu.type_id.number()) + " COT="@
        + iec_cot_name(asdu.cot) + " CA="@ + decimal(asdu.address_field as nat) + " OA="@ + decimal(
        asdu.originator_address as nat,
    ) + " Test="@ + bool_text(asdu.test)
}

/// The pending commands and a side after a unit came.
pub open spec fn receipt_handled(
    pending: Seq<ApplicationState>,
    desk: DeskState,
    asdu: AsduView,
    now: Moment,
) -> (Seq<ApplicationState>, DeskState) {
    if !application_receipt(asdu) {
        (pending, desk)
    } else {
        match receiver(pending, asdu) {
            None => (
                pending,
                desk.log(
                    now,
                    Direction::Internal,
                    Severity::Warning,
                    LogCategory::Control,
                    stray_receipt_text(asdu),
                ),
            ),
            Some(index) => {
                let verdict = verdict_of(pending[index], asdu);
                (
                    judged(pending, index, verdict),
                    desk.log(
                        now,
                        Direction::Internal,
                        verdict.severity(),
                        LogCategory::Control,
                        command_name(pending[index].request) + verdict.text(),
                    ),
                )
            },
        }
    }
}

/// The commands whose time is over, or those whose time is not, in their order.
pub open spec fn by_time(pending: Seq<ApplicationState>, over: bool, now: Moment) -> Seq<
    ApplicationState,
>
    decreases pending.len(),
{
    if pending.len() == 0 {
        Seq::empty()
    } else {
        let before = by_time(pending.drop_last(), over, now);
        if (now.tick_ms >= pending.last().deadline) == over {
            before.push(pending.last())
        } else {
            before
        }
    }
}

/// The commands whose time is over are logged.
pub open spec fn overdue_logged(desk: DeskState, late: Seq<ApplicationState>, now: Moment) -> DeskState
    decreases late.len(),
{
    if late.len() == 0 {
        desk
    } else {
        overdue_logged(desk, late.drop_last(), now).log(
            now,
            Direction::Internal,
            Severity::Error,
            LogCategory::Control,
            command_name(late.last().request) + " 等待应用回执超时"@,
        )
    }
}

/// The pending commands and a side after the time of some was over.
pub open spec fn pending_expired(pending: Seq<ApplicationState>, desk: DeskState, now: Moment) -> (
    Seq<ApplicationState>,
    DeskState,
) {
    let late = by_time(pending, true, now);
    let left = by_time(pending, false, now);
    let logged = overdue_logged(desk, late, now);
    (
        left,
        if late.len() == 0 {
            logged
        } else {
            logged.emit(EventView::ApplicationPending(left.len() as usize))
        },
    )
}

/// The pending commands are given up.
pub open spec fn pending_aborted(
    pending: Seq<ApplicationState>,
    desk: DeskState,
    reason: Seq<char>,
    now: Moment,
) -> (Seq<ApplicationState>, DeskState) {
    if pending.len() == 0 {
        (pending, desk)
    } else {
        (
            Seq::empty(),
            desk.emit(EventView::ApplicationPending(0)).log(
                now,
                Direction::Internal,
                Severity::Error,
                LogCategory::Control,
                "已取消 "@ + decimal(pending.len()) + " 个未完成应用事务: "@ + reason,
            ),
        )
    }
}

impl PendingApplications {
    pub fn new() -> (result: Self)
        ensures
            result@ == Seq::<ApplicationState>::empty(),
    {
        let result = PendingApplications { entries: Vec::new() };
        assert(result@ =~= Seq::<ApplicationState>::empty());
        result
    }

    pub fn len(&self) -> (result: usize)
        ensures
            result == self@.len(),
    {
        self.entries.len()
    }

    pub fn is_empty(&self) -> (result: bool)
        ensures
            result == (self@.len() == 0),
    {
        self.entries.len() == 0
    }

    /// Awaits the receipt of a command that was sent, where it has one.
    pub fn register(
        &mut self,
        request: DispatchRequest,
        configured_common_address: u16,
        timeout_ms: u64,
        now: Moment,
    ) -> (result: Result<(), String>)
        ensures
            exists|expected: Result<Option<AsduView>, Seq<char>>| #[trigger]
                may_be_expected(awaits_receipt(request.action), request, expected) && (final(self)@, error_view(result))
                    == registered(
                    old(self)@,
                    request,
                    expected,
                    configured_common_address,
                    timeout_ms,
                    now,
                ),
    {
        let expected = if request.action.is_control() || request.action
            == DispatchAction::ClockSync {
            build_dispatch_request(&request)
        } else {
            Ok(None)
        };
        let ghost view = unit_view(expected);
        let result = self.expect(request, expected, configured_common_address, timeout_ms, now);
        assert(may_be_expected(awaits_receipt(request.action), request, view));
        result
    }

    /// Awaits a receipt of what a command became once more.
    pub fn expect(
        &mut self,
        request: DispatchRequest,
        expected: Result<Option<Asdu>, String>,
        configured_common_address: u16,
        timeout_ms: u64,
        now: Moment,
    ) -> (result: Result<(), String>)
        ensures
            (final(self)@, error_view(result)) == registered(
                old(self)@,
                request,
                unit_view(expected),
                configured_common_address,
                timeout_ms,
                now,
            ),
    {
        if !request.action.is_control() && request.action != DispatchAction::ClockSync {
            return Ok(());
        }
        let unit = match expected {
            Err(text) => {
                return Err(text);
            },
            Ok(None) => {
                return Err(cat(request.action.label().to_owned(), " 没有应用 ASDU"));
            },
            Ok(Some(unit)) => unit,
        };
        let entry = PendingApplication {
            request,
            expected: unit,
            response_common_address: response_address(
                request.common_address,
                configured_common_address,
            ),
            deadline: now.tick_ms.saturating_add(timeout_ms),
            accepted: false,
        };
        self.entries.push(entry);
        assert(self@ =~= old(self)@.push(entry@));
        Ok(())
    }

    fn find(&self, asdu: &Asdu) -> (result: Option<usize>)
        ensures
            match result {
                Some(index) => index < self.entries@.len() && receiver(self@, asdu@) == Some(
                    index as int,
                ),
                None => receiver(self@, asdu@) is None,
            },
    {
        let mut index: usize = 0;
        while index < self.entries.len()
            invariant
                index <= self.entries@.len(),
                forall|i: int| 0 <= i < index ==> !(#[trigger] self@[i]).receives(asdu@),
            decreases self.entries.len() - index,
        {
            assert(self@[index as int] == self.entries@[index as int]@);
            if self.entries[index].matches(asdu) {
                proof {
                    lemma_first_receiver(self@, asdu@, index as int);
                }
                return Some(index);
            }
            index += 1;
        }
        proof {
            lemma_receiver(self@, asdu@);
        }
        None
    }

    /// Takes in a unit that may be a receipt.
    pub fn handle(&mut self, asdu: &Asdu, now: Moment, desk: &mut Desk)
        ensures
            (final(self)@, final(desk)@) == receipt_handled(old(self)@, old(desk)@, asdu@, now),
    {
        if !is_application_confirmation(asdu) {
            return;
        }
        let index: usize = match self.find(asdu) {
            Some(index) => index,
            None => {
                let name = type_mnemonic(asdu.type_id.code());
                let text = cat("收到未关联的应用回执：TypeID=".to_owned(), name.as_str());
                let cause = cot_name(asdu.cot);
                let text = cat(cat(text, " COT="), cause.as_str());
                let text = cat_number(cat(text, " CA="), asdu.address_field as u64);
                let text = cat_number(cat(text, " OA="), asdu.originator_address as u64);
                let text = cat_bool(cat(text, " Test="), asdu.test);
                desk.log(now, Direction::Internal, Severity::Warning, LogCategory::Control, text);
                return;
            },
        };
        let ghost before = self@;
        assert(before[index as int] == self.entries@[index as int]@);
        let request = self.entries[index].request;
        let verdict = if asdu.cot == COT_ACTIVATION_CONFIRMATION {
            if asdu.negative {
                Verdict::Refused
            } else if request.action == DispatchAction::ClockSync || request.phase
                == ControlPhase::Select {
                Verdict::Confirmed
            } else {
                Verdict::Accepted
            }
        } else if asdu.negative {
            Verdict::Failed
        } else if self.entries[index].accepted {
            Verdict::Done
        } else {
            Verdict::Early
        };
        let text = command_label(&request);
        match verdict {
            Verdict::Accepted => {
                let entry = PendingApplication {
                    request,
                    expected: self.entries[index].expected.copy(),
                    response_common_address: self.entries[index].response_common_address,
                    deadline: self.entries[index].deadline,
                    accepted: true,
                };
                self.entries.set(index, entry);
                assert(self@ =~= before.update(index as int, entry@));
            },
            Verdict::Early => {},
            Verdict::Refused | Verdict::Confirmed | Verdict::Failed | Verdict::Done => {
                let _ = self.entries.remove(index);
                assert(self@ =~= before.remove(index as int));
            },
        }
        desk.log(
            now,
            Direction::Internal,
            verdict.level(),
            LogCategory::Control,
            cat(text, verdict.label()),
        );
    }

    /// Gives up the commands whose time is over.
    pub fn expire(&mut self, now: Moment, desk: &mut Desk)
        ensures
            (final(self)@, final(desk)@) == pending_expired(old(self)@, old(desk)@, now),
    {
        let ghost all = self@;
        let ghost first = desk@;
        let mut index: usize = 0;
        let mut found = false;
        let ghost mut done: int = 0;
        assert(all.take(0) =~= Seq::<ApplicationState>::empty());
        assert(all.skip(0) =~= all);
        assert(self@ =~= by_time(all.take(0), false, now) + all.skip(0));
        while index < self.entries.len()
            invariant
                0 <= done <= all.len(),
                index <= self.entries@.len(),
                index == by_time(all.take(done), false, now).len(),
                self@ == by_time(all.take(done), false, now) + all.skip(done),
                found == (by_time(all.take(done), true, now).len() > 0),
                desk@ == overdue_logged(first, by_time(all.take(done), true, now), now),
            decreases all.len() - done,
        {
            let ghost left = by_time(all.take(done), false, now);
            let ghost late = by_time(all.take(done), true, now);
            let ghost before = self@;
            proof {
                assert(self@.len() == left.len() + (all.len() - done));
                assert(self@[index as int] == all[done]);
                assert(self.entries@[index as int]@ == all[done]);
                assert(all.take(done + 1).drop_last() =~= all.take(done));
                assert(all.take(done + 1).last() == all[done]);
            }
            if now.tick_ms >= self.entries[index].deadline {
                let entry = self.entries.remove(index);
                assert(self@ =~= before.remove(index as int));
                assert(self@ =~= left + all.skip(done + 1));
                assert(by_time(all.take(done + 1), true, now) == late.push(all[done]));
                assert(late.push(all[done]).drop_last() =~= late);
                let text = cat(command_label(&entry.request), " 等待应用回执超时");
                desk.log(now, Direction::Internal, Severity::Error, LogCategory::Control, text);
                found = true;
            } else {
                assert(by_time(all.take(done + 1), false, now) == left.push(all[done]));
                assert(self@ =~= left.push(all[done]) + all.skip(done + 1));
                index += 1;
            }
            proof {
                done = done + 1;
            }
        }
        proof {
            assert(self@.len() == self.entries@.len());
            assert(all.take(done) =~= all);
            assert(self@ =~= by_time(all, false, now));
        }
        if found {
            desk.emit(RuntimeEvent::ApplicationPending(self.entries.len()));
        }
    }

    /// Gives up all commands.
    pub fn abort_all(&mut self, reason: &str, now: Moment, desk: &mut Desk)
        ensures
            (final(self)@, final(desk)@) == pending_aborted(
                old(self)@,
                old(desk)@,
                reason@,
                now,
            ),
    {
        if self.entries.len() == 0 {
            return;
        }
        let count: usize = self.entries.len();
        self.entries.clear();
        assert(self@ =~= Seq::<ApplicationState>::empty());
        desk.emit(RuntimeEvent::ApplicationPending(0));
        let text = cat_number("已取消 ".to_owned(), count as u64);
        let text = cat(cat(text, " 个未完成应用事务: "), reason);
        desk.log(now, Direction::Internal, Severity::Error, LogCategory::Control, text);
    }
}

// ---------------------------------------------------------------------------
// Laws.
/// A command that is executed is over only after a positive confirmation and
/// then a termination, or after a negative receipt; a receipt that differs in
/// any field changes nothing.
pub proof fn law_receipts_match_in_every_field(
    pending: Seq<ApplicationState>,
    desk: DeskState,
    asdu: AsduView,
    now: Moment,
)
    ensures
        ({
            let (after, _) = receipt_handled(pending, desk, asdu, now);
            &&& (forall|i: int| 0 <= i < pending.len() ==> !(#[trigger] pending[i]).receives(asdu))
                ==> after == pending
            &&& !application_receipt(asdu) ==> after == pending
            &&& after.len() == pending.len() || (after.len() + 1 == pending.len() && receiver(
                pending,
                asdu,
            ) is Some && {
                let entry = pending[receiver(pending, asdu)->0];
                asdu.negative || entry.request.action is ClockSync || entry.request.phase is Select
                    || (entry.accepted && asdu.cot == COT_ACTIVATION_TERMINATION)
            })
        }),
{
    lemma_receiver(pending, asdu);
}

/// A command that was executed is accepted by its positive confirmation, and
/// over with the termination that follows it.
pub proof fn law_confirmation_then_termination(
    entry: ApplicationState,
    desk: DeskState,
    confirmation: AsduView,
    termination: AsduView,
    now: Moment,
)
    requires
        entry.request.action !is ClockSync,
        entry.request.phase is Execute,
        application_receipt(confirmation),
        confirmation.cot == COT_ACTIVATION_CONFIRMATION,
        !confirmation.negative,
        entry.receives(confirmation),
        application_receipt(termination),
        termination.cot == COT_ACTIVATION_TERMINATION,
        !termination.negative,
        entry.receives(termination),
        !entry.accepted,
    ensures
        ({
            let pending = seq![entry];
            let (early, _) = receipt_handled(pending, desk, termination, now);
            let (accepted, shown) = receipt_handled(pending, desk, confirmation, now);
            let (over, _) = receipt_handled(accepted, shown, termination, now);
            &&& early == pending
            &&& accepted == seq![ApplicationState { accepted: true, ..entry }]
            &&& over == Seq::<ApplicationState>::empty()
        }),
{
    let pending = seq![entry];
    lemma_first_receiver(pending, confirmation, 0);
    lemma_first_receiver(pending, termination, 0);
    let after = ApplicationState { accepted: true, ..entry };
    let (accepted, shown) = receipt_handled(pending, desk, confirmation, now);
    assert(accepted =~= seq![after]);
    assert(after.receives(termination));
    lemma_first_receiver(accepted, termination, 0);
    assert(accepted.remove(0) =~= Seq::<ApplicationState>::empty());
}

/// Every command is over when its time is: what is left is due later.
pub proof fn law_no_command_waits_forever(
    pending: Seq<ApplicationState>,
    desk: DeskState,
    now: Moment,
)
    ensures
        forall|i: int|
            0 <= i < pending_expired(pending, desk, now).0.len() ==> now.tick_ms < (
            #[trigger] pending_expired(pending, desk, now).0[i]).deadline,
        by_time(pending, true, now).len() + by_time(pending, false, now).len() == pending.len(),
    decreases pending.len(),
{
    if pending.len() > 0 {
        law_no_command_waits_forever(pending.drop_last(), desk, now);
        let before = by_time(pending.drop_last(), false, now);
        assert(pending_expired(pending.drop_last(), desk, now).0 == before);
        let after = by_time(pending, false, now);
        assert forall|i: int| 0 <= i < after.len() implies now.tick_ms < (
        #[trigger] after[i]).deadline by {
            if i < before.len() {
                assert(after[i] == before[i]);
            }
        }
    }
}

/// A unit is of one of the types of commands whose receipts are awaited.
pub open spec fn answers_a_command(asdu: AsduView) -> bool {
    match asdu.type_id {
        TypeId::C_SC_NA_1 | TypeId::C_DC_NA_1 | TypeId::C_RC_NA_1 | TypeId::C_SE_NA_1 |
        TypeId::C_SE_NB_1 | TypeId::C_SE_NC_1 | TypeId::C_CS_NA_1 => true,
        _ => false,
    }
}

/// The elements of two objects are alike: the same, but for a float, of which
/// both zeros are alike and nothing that is no number is.
pub open spec fn alike(left: Element, right: Element) -> bool {
    let number = |bits: u32| (bits as int) % 0x8000_0000 <= 0x7F80_0000;
    let zero = |bits: u32| bits == 0 || bits == 0x8000_0000;
    match (left, right) {
        (
            Element::FloatSetpoint { bits: a, qos: first },
            Element::FloatSetpoint { bits: b, qos: second },
        ) => first == second && number(a) && number(b) && (a == b || (zero(a) && zero(b))),
        (
            Element::ShortFloat { bits: a, qds: first },
            Element::ShortFloat { bits: b, qds: second },
        ) => first == second && number(a) && number(b) && (a == b || (zero(a) && zero(b))),
        _ => left == right,
    }
}

/// A unit repeats what is expected of the receipt of a command: type, station,
/// originator, test flag and every object with its address.
pub open spec fn repeats(entry: ApplicationState, asdu: AsduView) -> bool {
    &&& asdu.type_id == entry.expected.type_id
    &&& asdu.address_field == entry.response_common_address
    &&& asdu.originator_address == entry.expected.originator_address
    &&& asdu.test == entry.expected.test
    &&& asdu.objects matches ObjectsView::Known(found) && (entry.expected.objects matches
        ObjectsView::Known(sent) && found.len() == sent.len() && forall|i: int|
        0 <= i < sent.len() ==> (#[trigger] found[i]).address == sent[i].address && alike(
            found[i].element,
            sent[i].element,
        ))
}

/// A receipt is for the first pending command that it repeats in every field, and
/// decides it. A negative confirmation or termination ends the command as an
/// error, whatever came before. A positive confirmation ends a clock command and a
/// selection, and of every other command marks that it was accepted. A positive
/// termination ends an accepted command, and is warned of and ignored before that.
/// Every other command stays as it is, and one line tells the operator.
pub proof fn law_receipts_decide_their_commands(
    pending: Seq<ApplicationState>,
    desk: DeskState,
    asdu: AsduView,
    now: Moment,
    index: int,
)
    requires
        0 <= index < pending.len(),
        repeats(pending[index], asdu),
        forall|i: int| 0 <= i < index ==> !repeats(#[trigger] pending[i], asdu),
        answers_a_command(asdu),
        asdu.cot == 7 || asdu.cot == 10,
    ensures
        ({
            let (after, shown) = receipt_handled(pending, desk, asdu, now);
            let entry = pending[index];
            let name = entry.request.action.label_text() + " IOA="@ + decimal(
                entry.request.ioa as nat,
            );
            let brief = entry.request.action is ClockSync || entry.request.phase is Select;
            &&& added_line(desk, shown) matches Some(line) && line.category is Control
                && line.direction is Internal && line.timestamp_ms == now.wall_ms && line.side
                == desk.side && {
                &&& asdu.negative ==> after == pending.remove(index) && line.severity is Error
                    && line.summary == name + (if asdu.cot == 7 {
                    " 收到否定 ACTCON"@
                } else {
                    " 收到否定 ACTTERM"@
                })
                &&& !asdu.negative && asdu.cot == 7 && brief ==> after == pending.remove(index)
                    && line.severity is Success && line.summary == name + " 收到完整匹配的 ACTCON"@
                &&& !asdu.negative && asdu.cot == 7 && !brief ==> after == pending.update(
                    index,
                    (ApplicationState { accepted: true, ..entry }),
                ) && line.severity is Success && line.summary == name + " 已接受，等待 ACTTERM"@
                &&& !asdu.negative && asdu.cot == 10 && entry.accepted ==> after == pending.remove(
                    index,
                ) && line.severity is Success && line.summary == name
                    + " 已完成，回执字段全部匹配"@
                &&& !asdu.negative && asdu.cot == 10 && !entry.accepted ==> after == pending
                    && line.severity is Warning && line.summary == name
                    + " 在正向 ACTCON 前收到 ACTTERM，已忽略"@
            }
        }),
{
    lemma_repeats(pending[index], asdu);
    assert forall|i: int| 0 <= i < index implies !(#[trigger] pending[i]).receives(asdu) by {
        lemma_repeats(pending[i], asdu);
        assert(!repeats(pending[i], asdu));
    }
    lemma_first_receiver(pending, asdu, index);
    let verdict = verdict_of(pending[index], asdu);
    law_entries_are_of_their_side(
        desk,
        now,
        Direction::Internal,
        verdict.severity(),
        LogCategory::Control,
        command_name(pending[index].request) + verdict.text(),
    );
}

proof fn lemma_repeats(entry: ApplicationState, asdu: AsduView)
    ensures
        entry.receives(asdu) == repeats(entry, asdu),
{
    assert forall|left: Element, right: Element| alike(left, right) == #[trigger] elements_equal(
        left,
        right,
    ) by {}
    if let (ObjectsView::Known(found), ObjectsView::Known(sent)) = (
        asdu.objects,
        entry.expected.objects,
    ) {
        if repeats(entry, asdu) {
            assert forall|i: int| 0 <= i < found.len() implies (#[trigger] found[i]).address
                == sent[i].address && elements_equal(found[i].element, sent[i].element) by {
                assert(alike(found[i].element, sent[i].element));
            }
        }
        if entry.receives(asdu) {
            assert forall|i: int| 0 <= i < sent.len() implies (#[trigger] found[i]).address
                == sent[i].address && alike(found[i].element, sent[i].element) by {
                assert(elements_equal(found[i].element, sent[i].element));
            }
        }
    }
}

/// A receipt that repeats no pending command changes none of them, and is warned
/// of. What is no receipt, by its type or its cause, is left to others.
pub proof fn law_other_units_decide_nothing(
    pending: Seq<ApplicationState>,
    desk: DeskState,
    asdu: AsduView,
    now: Moment,
)
    ensures
        ({
            let (after, shown) = receipt_handled(pending, desk, asdu, now);
            let receipt = answers_a_command(asdu) && (asdu.cot == 7 || asdu.cot == 10);
            &&& !receipt ==> after == pending && shown == desk
            &&& receipt && (forall|i: int|
                0 <= i < pending.len() ==> !repeats(#[trigger] pending[i], asdu)) ==> after
                == pending && (added_line(desk, shown) matches Some(line) && line.severity
                is Warning)
        }),
{
    lemma_receiver(pending, asdu);
    if let Some(index) = receiver(pending, asdu) {
        lemma_repeats(pending[index], asdu);
    }
    law_entries_are_of_their_side(
        desk,
        now,
        Direction::Internal,
        Severity::Warning,
        LogCategory::Control,
        stray_receipt_text(asdu),
    );
}

/// The receipts of controls, set points and clock commands are awaited, and of
/// nothing else: from the station that was asked, or from the configured one where
/// all were, until the time is over. The command is not accepted yet, and those
/// that were sent before stand before it.
pub proof fn law_controls_await_their_receipts(
    pending: Seq<ApplicationState>,
    request: DispatchRequest,
    unit: AsduView,
    configured: u16,
    timeout_ms: u64,
    now: Moment,
)
    ensures
        ({
            let (after, error) = registered(
                pending,
                request,
                Ok(Some(unit)),
                configured,
                timeout_ms,
                now,
            );
            let awaited = match request.action {
                DispatchAction::SingleControl | DispatchAction::DoubleControl |
                DispatchAction::RegulatingStep | DispatchAction::NormalizedSetpoint |
                DispatchAction::ScaledSetpoint | DispatchAction::FloatSetpoint |
                DispatchAction::ClockSync => true,
                _ => false,
            };
            &&& error is None
            &&& !awaited ==> after == pending
            &&& awaited ==> {
                &&& after.len() == pending.len() + 1
                &&& after.drop_last() == pending
                &&& after.last().request == request
                &&& after.last().expected == unit
                &&& after.last().response_common_address == (if request.common_address == 65535 {
                    configured
                } else {
                    request.common_address
                })
                &&& now.tick_ms + timeout_ms <= u64::MAX ==> after.last().deadline == now.tick_ms
                    + timeout_ms
                &&& now.tick_ms + timeout_ms > u64::MAX ==> after.last().deadline == u64::MAX
                &&& !after.last().accepted
            }
        }),
{
    let after = registered(pending, request, Ok(Some(unit)), configured, timeout_ms, now).0;
    if after.len() > pending.len() {
        assert(after.drop_last() =~= pending);
    }
}

/// The commands whose time is over are exactly the ones that are given up; the
/// others stay in their order. Each that is given up is logged as an error, and
/// the number of those that are left is shown where one was.
pub proof fn law_overdue_commands_are_given_up(
    pending: Seq<ApplicationState>,
    desk: DeskState,
    now: Moment,
)
    ensures
        ({
            let (after, shown) = pending_expired(pending, desk, now);
            let late = pending.filter(|entry: ApplicationState| entry.deadline <= now.tick_ms);
            &&& after == pending.filter(|entry: ApplicationState| entry.deadline > now.tick_ms)
            &&& late.len() == 0 ==> shown == desk
            &&& late.len() > 0 ==> {
                &&& shown.outputs.len() == desk.outputs.len() + late.len() + 1
                &&& shown.outputs.take(desk.outputs.len() as int) == desk.outputs
                &&& shown.outputs.last() == OutputView::Event(
                    EventView::ApplicationPending(after.len() as usize),
                )
                &&& forall|i: int|
                    desk.outputs.len() <= i < shown.outputs.len() - 1 ==> (
                    #[trigger] shown.outputs[i] matches OutputView::Event(EventView::Log(line))
                        && line.severity is Error)
            }
        }),
{
    lemma_by_time(pending, now);
    let late = by_time(pending, true, now);
    lemma_overdue_lines(desk, late, now);
    let shown = pending_expired(pending, desk, now).1;
    if late.len() > 0 {
        let logged = overdue_logged(desk, late, now);
        assert(shown.outputs.take(desk.outputs.len() as int) =~= logged.outputs.take(
            desk.outputs.len() as int,
        ));
    }
}

proof fn lemma_by_time(pending: Seq<ApplicationState>, now: Moment)
    ensures
        by_time(pending, true, now) == pending.filter(
            |entry: ApplicationState| entry.deadline <= now.tick_ms,
        ),
        by_time(pending, false, now) == pending.filter(
            |entry: ApplicationState| entry.deadline > now.tick_ms,
        ),
    decreases pending.len(),
{
    reveal(Seq::filter);
    if pending.len() > 0 {
        lemma_by_time(pending.drop_last(), now);
    }
}

proof fn lemma_overdue_lines(desk: DeskState, late: Seq<ApplicationState>, now: Moment)
    ensures
        ({
            let shown = overdue_logged(desk, late, now);
            &&& shown.outputs.len() == desk.outputs.len() + late.len()
            &&& shown.outputs.take(desk.outputs.len() as int) == desk.outputs
            &&& forall|i: int|
                desk.outputs.len() <= i < shown.outputs.len() ==> (#[trigger] shown.outputs[i]
                    matches OutputView::Event(EventView::Log(line)) && line.severity is Error)
        }),
    decreases late.len(),
{
    let shown = overdue_logged(desk, late, now);
    if late.len() > 0 {
        lemma_overdue_lines(desk, late.drop_last(), now);
        let before = overdue_logged(desk, late.drop_last(), now);
        assert(shown.outputs.take(desk.outputs.len() as int) =~= before.outputs.take(
            desk.outputs.len() as int,
        ));
    } else {
        assert(shown.outputs.take(desk.outputs.len() as int) =~= desk.outputs);
    }
}

/// Giving up leaves no command pending, and tells so as an error where there was
/// one.
pub proof fn law_giving_up_leaves_no_command(
    pending: Seq<ApplicationState>,
    desk: DeskState,
    reason: Seq<char>,
    now: Moment,
)
    ensures
        ({
            let (after, shown) = pending_aborted(pending, desk, reason, now);
            &&& after.len() == 0
            &&& pending.len() == 0 ==> shown == desk
            &&& pending.len() > 0 ==> shown.outputs.len() == desk.outputs.len() + 2
                && shown.outputs[desk.outputs.len() as int] == OutputView::Event(
                EventView::ApplicationPending(0),
            ) && (shown.outputs.last() matches OutputView::Event(EventView::Log(line))
                && line.severity is Error)
        }),
{
}

} // verus!
