//! What the two sides make of each other: the answers that the collecting side
//! gives are the ones that the dispatching side waits for.

use crate::model::{DispatchRequest, Moment, SnapshotKind};
use crate::protocol::asdu::{
    counter_interrogation_cause, field_refusal, interrogated_group, interrogation_cause,
    request_unit, requested_element, unit_rows,
};
use crate::protocol::collect::{asked_counter_group, demand_of, Demand, SessionState};
use crate::protocol::element::{Cp56Time2a, Element};
use crate::protocol::message::{AsduView, COT_ACTIVATION_CONFIRMATION, COT_ACTIVATION_TERMINATION};
use crate::protocol::receipt::{application_receipt, awaits_receipt, registered, single_nan};
use crate::protocol::round::{
    answering_address, collected_type, evaluated, OutcomeView, RoundPhase, RoundState,
};
use crate::protocol::station::{
    general_units, kind_order, kinds_units, plain_units, PointStateView, ReportHeader,
};
use vstd::prelude::*;

verus! {

/// A unit has the header of a report.
pub open spec fn has_header(asdu: AsduView, header: ReportHeader) -> bool {
    asdu.cot == header.cot && asdu.address_field == header.common_address
        && asdu.originator_address == header.originator_address && asdu.test == header.test
        && !asdu.negative
}

proof fn lemma_reports_have_the_header(
    points: Seq<PointStateView>,
    kinds: Seq<crate::model::CollectPointKind>,
    group: Option<u8>,
    header: ReportHeader,
)
    ensures
        forall|i: int|
            0 <= i < kinds_units(points, kinds, group, header).len() ==> has_header(
                #[trigger] kinds_units(points, kinds, group, header)[i],
                header,
            ),
    decreases kinds.len(),
{
    if kinds.len() > 0 {
        lemma_reports_have_the_header(points, kinds.drop_last(), group, header);
        let before = kinds_units(points, kinds.drop_last(), group, header);
        let more = plain_units(points, kinds.last(), group, header);
        let all = kinds_units(points, kinds, group, header);
        assert(all == before + more);
        assert forall|i: int| 0 <= i < all.len() implies has_header(#[trigger] all[i], header) by {
            if i < before.len() {
                assert(has_header(before[i], header));
            } else {
                assert(has_header(more[i - before.len()], header));
            }
        }
    }
}

/// The round that a request begins.
pub open spec fn begun(request: DispatchRequest, configured: u16, deadline: u64) -> RoundState {
    RoundState {
        request,
        response_common_address: answering_address(request.common_address, configured),
        phase: RoundPhase::AwaitActcon,
        deadline,
        values: Seq::empty(),
    }
}

/// An interrogation that is sent to a station, or to all, is understood there
/// as what it asks for; its answer begins with the confirmation that the round
/// waits for, goes on with reports whose headers are those of the round, and
/// ends with the termination that completes the round.
pub proof fn law_interrogation_completes_the_round(
    station: SessionState,
    request: DispatchRequest,
    deadline: u64,
    floats: Seq<Seq<char>>,
    now: Moment,
)
    requires
        request.action is GeneralInterrogation,
        field_refusal(request) is None,
        request.common_address == station.home.common_address || request.common_address
            == u16::MAX,
    ensures
        ({
            let unit = request_unit(request, Element::Interrogation { qoi: request.qoi });
            let round = begun(request, station.home.common_address, deadline);
            let collecting = RoundState { phase: RoundPhase::Collecting, ..round };
            let confirmation = station.answer(unit, COT_ACTIVATION_CONFIRMATION, false);
            let termination = station.answer(unit, COT_ACTIVATION_TERMINATION, false);
            let reports = general_units(
                station.home.points,
                interrogated_group(request.qoi),
                station.report_header(unit, request.qoi),
            );
            &&& demand_of(unit) == Demand::Interrogation { qoi: request.qoi }
            &&& interrogation_cause(request.qoi) == Some(request.qoi)
            &&& evaluated(round, SnapshotKind::General, confirmation, floats, now.wall_ms)
                == OutcomeView::Confirmed
            &&& evaluated(collecting, SnapshotKind::General, termination, floats, now.wall_ms)
                == OutcomeView::Complete
            &&& forall|i: int|
                0 <= i < reports.len() && collected_type(
                    SnapshotKind::General,
                    (#[trigger] reports[i]).type_id,
                ) ==> evaluated(
                    collecting,
                    SnapshotKind::General,
                    reports[i],
                    floats,
                    now.wall_ms,
                ) == OutcomeView::Data(unit_rows(reports[i], floats, now.wall_ms))
        }),
{
    let unit = request_unit(request, Element::Interrogation { qoi: request.qoi });
    lemma_reports_have_the_header(
        station.home.points,
        kind_order().take(5),
        interrogated_group(request.qoi),
        station.report_header(unit, request.qoi),
    );
}

/// The same of an interrogation of the counters.
pub proof fn law_counter_interrogation_completes_the_round(
    station: SessionState,
    request: DispatchRequest,
    deadline: u64,
    floats: Seq<Seq<char>>,
    now: Moment,
)
    requires
        request.action is CounterInterrogation,
        field_refusal(request) is None,
        request.common_address == station.home.common_address || request.common_address
            == u16::MAX,
    ensures
        ({
            let unit = request_unit(
                request,
                Element::CounterInterrogation { rqt: request.qcc_request, frz: request.qcc_freeze },
            );
            let round = begun(request, station.home.common_address, deadline);
            let collecting = RoundState { phase: RoundPhase::Collecting, ..round };
            let confirmation = station.answer(unit, COT_ACTIVATION_CONFIRMATION, false);
            let termination = station.answer(unit, COT_ACTIVATION_TERMINATION, false);
            let reports = plain_units(
                station.home.points,
                crate::model::CollectPointKind::Counter,
                asked_counter_group(request.qcc_request),
                station.report_header(unit, counter_interrogation_cause(request.qcc_request)),
            );
            &&& demand_of(unit) == Demand::Counters { rqt: request.qcc_request }
            &&& evaluated(round, SnapshotKind::Energy, confirmation, floats, now.wall_ms)
                == OutcomeView::Confirmed
            &&& evaluated(collecting, SnapshotKind::Energy, termination, floats, now.wall_ms)
                == OutcomeView::Complete
            &&& forall|i: int|
                0 <= i < reports.len() ==> evaluated(
                    collecting,
                    SnapshotKind::Energy,
                    #[trigger] reports[i],
                    floats,
                    now.wall_ms,
                ) == OutcomeView::Data(unit_rows(reports[i], floats, now.wall_ms))
        }),
{
}

/// The answers of a station to a command are receipts of that command, where it
/// became the same when its receipt was registered as when it was sent, as all
/// commands but those for the clock do.
pub proof fn law_answers_are_receipts(
    station: SessionState,
    request: DispatchRequest,
    element: Element,
    cot: u8,
    negative: bool,
    timeout_ms: u64,
    now: Moment,
)
    requires
        awaits_receipt(request.action),
        exists|time: Result<Cp56Time2a, Seq<char>>| #[trigger]
            requested_element(request, time, Ok(element)),
        request.action is FloatSetpoint ==> !single_nan(request.value.single),
        request.common_address == station.home.common_address || request.common_address
            == u16::MAX,
        cot == COT_ACTIVATION_CONFIRMATION || cot == COT_ACTIVATION_TERMINATION,
    ensures
        ({
            let unit = request_unit(request, element);
            let (pending, error) = registered(
                Seq::empty(),
                request,
                Ok(Some(unit)),
                station.home.common_address,
                timeout_ms,
                now,
            );
            let answer = station.answer(unit, cot, negative);
            &&& error is None
            &&& pending.len() == 1
            &&& application_receipt(answer)
            &&& pending[0].receives(answer)
        }),
{
}

} // verus!
