//! The dispatching side.

use agcavc104test::config::{load_dispatch_points, DispatchPointConfig, DispatchSettings};
use agcavc104test::model::{
    ConnectionPhase, ConnectionView, ControlPhase, DispatchAction, DispatchCommand,
    DispatchPointKind, DispatchPointPurpose, DispatchRequest, Moment, PointView, RuntimeEvent, Side,
    SnapshotKind,
};
use agcavc104test::number::Real;
use agcavc104test::protocol::asdu::{build_dispatch_request, make_asdu, rows_from_asdu};
use agcavc104test::protocol::collect::SessionExit;
use agcavc104test::protocol::desk::{Desk, Output};
use agcavc104test::protocol::dispatch::{emit_current_values, DispatchSession, DispatchSide};
use agcavc104test::protocol::element::{
    Diq, Dpi, Element, InformationObject, Qds, SeqQd, Siq, Spi, TypeId,
};
use agcavc104test::protocol::frame::parse_frame;
use agcavc104test::protocol::message::{
    Asdu, Frame, InformationObjects, LinkFunction, COT_ACTIVATION_CONFIRMATION,
    COT_ACTIVATION_TERMINATION, COT_COUNTER_INTERROGATION_GENERAL, COT_INTERROGATION_GENERAL,
    COT_SPONTANEOUS,
};
use agcavc104test::protocol::receipt::PendingApplications;
use agcavc104test::protocol::round::{
    evaluate_round, merge_values, ExpectedPoints, InterrogationRound, RoundOutcome, RoundPhase,
    Rounds,
};
use agcavc104test::protocol::wire::LinkConfig;

fn number(value: f64) -> Real {
    Real { double: value.to_bits(), single: (value as f32).to_bits() }
}

fn request(action: DispatchAction) -> DispatchRequest {
    DispatchRequest {
        action,
        ioa: 201,
        value: number(1.0),
        phase: ControlPhase::Execute,
        common_address: 1,
        originator_address: 7,
        qualifier: 0,
        test: false,
        qoi: 20,
        qcc_request: 5,
        qcc_freeze: 0,
        repeat: 1,
        interval_ms: 100,
        clock_time_ms: None,
    }
}

fn built(request: &DispatchRequest) -> Asdu {
    build_dispatch_request(request).expect("valid request").expect("application ASDU")
}

fn response_for(request: &DispatchRequest, cot: u8, negative: bool, common_address: u16) -> Asdu {
    let mut response = built(request);
    response.cot = cot;
    response.negative = negative;
    response.address_field = common_address;
    response
}

fn general_data(common_address: u16, originator_address: u8) -> Asdu {
    make_asdu(
        TypeId::M_SP_NA_1,
        COT_INTERROGATION_GENERAL,
        common_address,
        originator_address,
        false,
        InformationObjects::Known(vec![InformationObject {
            address: 101,
            element: Element::SinglePoint {
                siq: Siq { iv: false, nt: false, sb: false, bl: false, spi: Spi::On },
            },
        }]),
    )
}

fn expects(
    name: &str,
    ioa: u32,
    kind: DispatchPointKind,
    purpose: DispatchPointPurpose,
) -> DispatchPointConfig {
    DispatchPointConfig {
        name: name.to_owned(),
        ioa,
        kind,
        purpose,
        min: None,
        max: None,
        default_value: None,
    }
}

fn points() -> Vec<DispatchPointConfig> {
    load_dispatch_points(vec![
        expects(
            "yc1",
            16_385,
            DispatchPointKind::Float,
            DispatchPointPurpose::ExpectedGeneral,
        ),
        expects(
            "yx1",
            101,
            DispatchPointKind::SinglePoint,
            DispatchPointPurpose::ExpectedGeneral,
        ),
        expects(
            "dd1",
            106,
            DispatchPointKind::Counter,
            DispatchPointPurpose::ExpectedEnergy,
        ),
        expects(
            "yk1",
            201,
            DispatchPointKind::SingleControl,
            DispatchPointPurpose::Command,
        ),
    ])
    .expect("dispatch points")
}

fn at(tick_ms: u64) -> Moment {
    Moment { wall_ms: 1_000_000 + tick_ms, tick_ms }
}

fn desk() -> Desk {
    Desk::new(
        Side::Dispatch,
        ConnectionView::new(ConnectionPhase::Active, "test".to_owned()),
    )
}

fn config() -> LinkConfig {
    LinkConfig { t1_ms: 250, t2_ms: 100, t3_ms: 20_000, k: 12, w: 8 }
}

fn side() -> DispatchSide {
    let mut side = DispatchSide::new(&DispatchSettings::default(), 10_000, points());
    side.desk.take_outputs();
    side
}

/// A session on which nothing is started yet.
fn stopped() -> DispatchSession {
    DispatchSession::connect(side(), config(), at(0))
}

fn session() -> DispatchSession {
    let mut session = stopped();
    assert_eq!(
        session.schedule_or_execute(request(DispatchAction::StartDt), at(1)),
        Ok(())
    );
    let confirmed = Frame::U(LinkFunction::StartConfirmation.frame());
    assert_eq!(session.receive(confirmed, &Vec::new(), at(2)), SessionExit::Stay);
    assert!(session.link.is_active());
    session.home.desk.take_outputs();
    session
}

fn events(outputs: Vec<Output>) -> Vec<RuntimeEvent> {
    outputs
        .into_iter()
        .filter_map(|output| match output {
            Output::Event(event) => Some(event),
            _ => None,
        })
        .collect()
}

fn summaries(outputs: Vec<Output>) -> Vec<String> {
    events(outputs)
        .into_iter()
        .filter_map(|event| match event {
            RuntimeEvent::Log(entry) => Some(entry.summary),
            _ => None,
        })
        .collect()
}

fn sent(outputs: &[Output]) -> Vec<Asdu> {
    outputs
        .iter()
        .filter_map(|output| match output {
            Output::Transmit(octets) => match parse_frame(octets).expect("frame") {
                Frame::I { asdu, .. } => Some(asdu),
                _ => None,
            },
            _ => None,
        })
        .collect()
}

#[test]
fn spontaneous_data_emits_current_values_without_an_interrogation_round() {
    let mut session = session();
    let mut data = general_data(1, 0);
    data.cot = COT_SPONTANEOUS;
    session.handle_incoming(&data, &Vec::new(), at(5));
    let float = make_asdu(
        TypeId::M_ME_NC_1,
        COT_SPONTANEOUS,
        1,
        0,
        false,
        InformationObjects::Known(vec![InformationObject {
            address: 16_385,
            element: Element::ShortFloat {
                bits: 12.5f32.to_bits(),
                qds: Qds { iv: false, nt: false, sb: false, bl: false, ov: false },
            },
        }]),
    );
    session.handle_incoming(&float, &vec![format!("{:.6}", 12.5)], at(6));

    let events = events(session.home.desk.take_outputs());
    let all: Vec<&Vec<PointView>> = events
        .iter()
        .filter_map(|event| match event {
            RuntimeEvent::DispatchValues { kind: SnapshotKind::General, values } => Some(values),
            _ => None,
        })
        .collect();
    assert_eq!(all[0][0].ioa, 101);
    assert_eq!(all[0][0].value.as_deref(), Some("1/合"));
    let float = all
        .iter()
        .flat_map(|values| values.iter())
        .find(|value| value.ioa == 16_385)
        .expect("spontaneous float current value");
    assert_eq!(float.value.as_deref(), Some("12.500000"));
    assert!(session.rounds.is_idle());
    assert!(!events
        .iter()
        .any(|event| matches!(event, RuntimeEvent::DispatchSnapshot { .. })));
}

#[test]
fn test_negative_and_other_station_data_do_not_update_current_values() {
    let mut desk = desk();
    let mut wrong_ca = general_data(2, 0);
    wrong_ca.cot = COT_SPONTANEOUS;
    emit_current_values(&wrong_ca, 1, &Vec::new(), at(1), &mut desk);

    let mut test_data = general_data(1, 0);
    test_data.cot = COT_SPONTANEOUS;
    test_data.test = true;
    emit_current_values(&test_data, 1, &Vec::new(), at(1), &mut desk);

    let mut negative = general_data(1, 0);
    negative.cot = COT_SPONTANEOUS;
    negative.negative = true;
    emit_current_values(&negative, 1, &Vec::new(), at(1), &mut desk);

    assert!(desk.take_outputs().is_empty());
}

#[test]
fn general_snapshot_is_emitted_only_after_actterm() {
    let mut session = session();
    let request = request(DispatchAction::GeneralInterrogation);
    session
        .rounds
        .reserve(&request, 1, 1_000, at(3), &mut session.home.desk)
        .expect("reserve");
    session.home.desk.take_outputs();

    session.handle_incoming(&general_data(1, 7), &Vec::new(), at(4));
    assert!(session.rounds.general.as_ref().expect("round").values.is_empty());

    let actcon = response_for(&request, COT_ACTIVATION_CONFIRMATION, false, 1);
    session.handle_incoming(&actcon, &Vec::new(), at(5));
    assert_eq!(
        session.rounds.general.as_ref().expect("round").phase,
        RoundPhase::Collecting
    );

    session.handle_incoming(&general_data(1, 7), &Vec::new(), at(6));
    assert_eq!(session.rounds.general.as_ref().expect("round").values.len(), 1);
    session.home.desk.take_outputs();

    let end = response_for(&request, COT_ACTIVATION_TERMINATION, false, 1);
    session.handle_incoming(&end, &Vec::new(), at(7));
    let emitted = events(session.home.desk.take_outputs());
    let (kind, values) = emitted
        .iter()
        .find_map(|event| match event {
            RuntimeEvent::DispatchSnapshot { kind, values } => Some((*kind, values)),
            _ => None,
        })
        .expect("snapshot event");
    assert_eq!(kind, SnapshotKind::General);
    let row = values.iter().find(|row| row.ioa == 101).expect("configured row");
    assert_eq!(row.value.as_deref(), Some("1/合"));
    assert_eq!(row.name, "yx1");
    assert!(emitted.iter().any(|event| matches!(
        event,
        RuntimeEvent::RoundPending { kind: SnapshotKind::General, pending: false }
    )));
    assert!(session.rounds.is_idle());
}

#[test]
fn duplicate_general_round_is_rejected_locally() {
    let mut desk = desk();
    let mut rounds = Rounds::new();
    let request = request(DispatchAction::GeneralInterrogation);
    rounds.reserve(&request, 1, 1_000, at(1), &mut desk).expect("first reserve");
    let error = rounds
        .reserve(&request, 1, 1_000, at(2), &mut desk)
        .expect_err("duplicate should fail");
    assert!(error.contains("已有未完成轮次"));
}

#[test]
fn counter_round_requires_actcon_and_commits_only_on_matching_actterm() {
    let mut session = session();
    let request = request(DispatchAction::CounterInterrogation);
    session
        .rounds
        .reserve(&request, 1, 1_000, at(3), &mut session.home.desk)
        .expect("reserve CI");
    let confirm = response_for(&request, COT_ACTIVATION_CONFIRMATION, false, 1);
    session.handle_incoming(&confirm, &Vec::new(), at(4));
    let data = make_asdu(
        TypeId::M_IT_NA_1,
        COT_COUNTER_INTERROGATION_GENERAL,
        1,
        7,
        false,
        InformationObjects::Known(vec![InformationObject {
            address: 106,
            element: Element::Counter {
                bcr: 55,
                sqd: SeqQd { iv: false, ca: false, cy: false, seq: 3 },
            },
        }]),
    );
    session.handle_incoming(&data, &Vec::new(), at(5));
    let end = response_for(&request, COT_ACTIVATION_TERMINATION, false, 1);
    session.handle_incoming(&end, &Vec::new(), at(6));

    let emitted = events(session.home.desk.take_outputs());
    let values = emitted
        .iter()
        .find_map(|event| match event {
            RuntimeEvent::DispatchSnapshot { kind: SnapshotKind::Energy, values } => Some(values),
            _ => None,
        })
        .expect("energy snapshot");
    let counter = values.iter().find(|row| row.ioa == 106).expect("counter");
    assert_eq!(counter.value.as_deref(), Some("55"));
    assert_eq!(counter.quality, "GOOD|S3");
}

#[test]
fn broadcast_round_accepts_only_the_configured_concrete_address() {
    let mut request = request(DispatchAction::GeneralInterrogation);
    request.common_address = u16::MAX;
    let mut round = InterrogationRound {
        request,
        response_common_address: 1,
        phase: RoundPhase::AwaitActcon,
        deadline: 1_000,
        values: Vec::new(),
    };
    assert!(matches!(
        evaluate_round(
            &mut round,
            SnapshotKind::General,
            &response_for(&request, COT_ACTIVATION_CONFIRMATION, false, 1),
            &Vec::new(),
            at(1),
        ),
        RoundOutcome::Confirmed
    ));

    round.phase = RoundPhase::AwaitActcon;
    assert!(matches!(
        evaluate_round(
            &mut round,
            SnapshotKind::General,
            &response_for(&request, COT_ACTIVATION_CONFIRMATION, false, u16::MAX),
            &Vec::new(),
            at(1),
        ),
        RoundOutcome::Mismatch(_)
    ));
}

#[test]
fn control_responses_require_all_correlation_fields_and_actcon_before_actterm() {
    let mut desk = desk();
    let request = request(DispatchAction::SingleControl);
    let mut pending = PendingApplications::new();
    pending.register(request, 1, 1_000, at(1)).expect("registered");

    let mut wrong_value_request = request;
    wrong_value_request.value = number(0.0);
    pending.handle(
        &response_for(&wrong_value_request, COT_ACTIVATION_CONFIRMATION, false, 1),
        at(2),
        &mut desk,
    );
    assert_eq!(pending.entries.len(), 1);
    assert!(!pending.entries[0].accepted);

    pending.handle(
        &response_for(&request, COT_ACTIVATION_TERMINATION, false, 1),
        at(3),
        &mut desk,
    );
    assert_eq!(pending.entries.len(), 1);
    assert!(!pending.entries[0].accepted);

    pending.handle(
        &response_for(&request, COT_ACTIVATION_CONFIRMATION, false, 1),
        at(4),
        &mut desk,
    );
    assert!(pending.entries[0].accepted);
    pending.handle(
        &response_for(&request, COT_ACTIVATION_TERMINATION, false, 1),
        at(5),
        &mut desk,
    );
    assert!(pending.is_empty());
    let lines = summaries(desk.take_outputs());
    assert!(lines.iter().any(|line| line.contains("字段全部匹配")));
    assert_eq!(
        lines[0],
        "收到未关联的应用回执：TypeID=C_SC_NA_1 COT=ActivationConfirmation CA=1 OA=7 Test=false"
    );
    assert_eq!(lines[1], "单点遥控 C_SC_NA_1 IOA=201 在正向 ACTCON 前收到 ACTTERM，已忽略");
}

#[test]
fn type_mismatch_does_not_fill_a_configured_snapshot_row() {
    let expected = ExpectedPoints::new(points());
    let configured_ioa = expected
        .general_views()
        .into_iter()
        .find(|row| row.type_id == "M_SP_NA_1")
        .expect("configured single point")
        .ioa;
    let rows = rows_from_asdu(
        &make_asdu(
            TypeId::M_DP_NA_1,
            COT_INTERROGATION_GENERAL,
            1,
            0,
            false,
            InformationObjects::Known(vec![InformationObject {
                address: configured_ioa,
                element: Element::DoublePoint {
                    diq: Diq {
                        iv: false,
                        nt: false,
                        sb: false,
                        bl: false,
                        dpi: Dpi::Indeterminate,
                    },
                },
            }]),
        ),
        &Vec::new(),
    );
    let merged = expected.merge_general(&rows);
    let configured = merged
        .iter()
        .find(|row| row.ioa == configured_ioa && row.configured)
        .expect("configured row");
    assert!(configured.value.is_none());
    assert!(merged.iter().any(|row| {
        row.ioa == configured_ioa && !row.configured && row.name.contains("类型不匹配")
    }));
}

#[test]
fn values_without_a_configured_row_get_one_of_their_own() {
    let expected = ExpectedPoints::new(points());
    let mut stray = general_data(1, 0);
    stray.information_objects = InformationObjects::Known(vec![InformationObject {
        address: 7,
        element: Element::NormalizedNoQuality { nva: -3 },
    }]);
    let rows = rows_from_asdu(&stray, &Vec::new());
    let merged = merge_values(expected.general_views(), &rows);
    assert_eq!(merged.len(), 3);
    assert_eq!(merged[0].ioa, 7);
    assert_eq!(merged[0].name, "未配置 IOA");
    assert_eq!(merged[0].value.as_deref(), Some("-3"));
    assert_eq!(merged[1].ioa, 101);
    assert_eq!(merged[1].quality, "—");
}

#[test]
fn answers_with_other_fields_are_told_apart() {
    let asked = request(DispatchAction::GeneralInterrogation);
    let mut round = InterrogationRound {
        request: asked,
        response_common_address: 1,
        phase: RoundPhase::Collecting,
        deadline: 1_000,
        values: Vec::new(),
    };
    let mut judge = |asdu: &Asdu| {
        match evaluate_round(&mut round, SnapshotKind::General, asdu, &Vec::new(), at(1)) {
            RoundOutcome::Mismatch(text) => format!("mismatch {text}"),
            RoundOutcome::Abort(text) => format!("abort {text}"),
            RoundOutcome::Unrelated => "unrelated".to_owned(),
            RoundOutcome::Confirmed => "confirmed".to_owned(),
            RoundOutcome::Complete => "complete".to_owned(),
            RoundOutcome::Data(rows) => format!("data {}", rows.len()),
        }
    };
    assert_eq!(judge(&general_data(1, 7)), "data 1");
    assert_eq!(judge(&general_data(2, 7)), "mismatch CA 期望 1 实际 2");
    assert_eq!(judge(&general_data(1, 8)), "mismatch OA 期望 7 实际 8");
    let mut data = general_data(1, 7);
    data.test = true;
    assert_eq!(judge(&data), "mismatch Test 期望 false 实际 true");
    let mut data = general_data(1, 7);
    data.cot = 21;
    assert!(judge(&data).starts_with("mismatch 数据 COT 期望 Some(InterrogationGeneral) 实际 "));
    let mut data = general_data(1, 7);
    data.type_id = TypeId::M_ME_NA_1;
    assert_eq!(judge(&data), "mismatch 轮次数据 TypeID 不支持: M_ME_NA_1");
    let mut data = general_data(1, 7);
    data.cot = COT_SPONTANEOUS;
    assert_eq!(judge(&data), "unrelated");
    let negative = response_for(&asked, COT_ACTIVATION_CONFIRMATION, true, 1);
    assert_eq!(judge(&negative), "abort 收到否定 ActivationConfirmation");
    let mut other = asked;
    other.qoi = 21;
    let group = response_for(&other, COT_ACTIVATION_TERMINATION, false, 1);
    assert_eq!(judge(&group), "mismatch QOI/QCC 或信息体不匹配");
    let end = response_for(&asked, COT_ACTIVATION_TERMINATION, false, 1);
    assert_eq!(judge(&end), "complete");
}

#[test]
fn commands_need_a_started_transfer() {
    let mut session = stopped();
    assert_eq!(
        session.schedule_or_execute(request(DispatchAction::Read), at(1)),
        Err("链路状态 已连接/未启动传输，需要先 STARTDT".to_owned())
    );
    assert_eq!(
        session.schedule_or_execute(request(DispatchAction::StopDt), at(1)),
        Err("只有 ACTIVE 状态可以发送 STOPDT".to_owned())
    );
    let mut session = session_with_pending();
    assert_eq!(session.applications.len(), 1);
    session.schedule_or_execute(request(DispatchAction::StopDt), at(20)).expect("stop");
    let confirmed = Frame::U(LinkFunction::StopConfirmation.frame());
    session.receive(confirmed, &Vec::new(), at(21));
    assert!(session.applications.is_empty());
    let lines = summaries(session.home.desk.take_outputs());
    assert_eq!(lines.last().map(String::as_str), Some("已取消 1 个未完成应用事务: STOPDT"));
}

fn session_with_pending() -> DispatchSession {
    let mut session = session();
    session
        .schedule_or_execute(request(DispatchAction::SingleControl), at(10))
        .expect("control");
    session
}

#[test]
fn controls_are_sent_and_their_receipts_awaited() {
    let mut session = session_with_pending();
    let outputs = session.home.desk.take_outputs();
    let units = sent(&outputs);
    assert_eq!(units.len(), 1);
    assert_eq!(units[0].type_id, TypeId::C_SC_NA_1);
    assert!(events(outputs)
        .iter()
        .any(|event| matches!(event, RuntimeEvent::ApplicationPending(1))));
    assert_eq!(session.tick(at(1_009)), SessionExit::Disconnect);
    assert!(session.applications.is_empty());

    let mut session = session_with_pending();
    session.link.process(Frame::S { receive: 1 }, 11).expect("acknowledged");
    session.home.desk.take_outputs();
    assert_eq!(session.tick(at(1_010)), SessionExit::Stay);
    assert_eq!(
        summaries(session.home.desk.take_outputs()),
        vec!["单点遥控 C_SC_NA_1 IOA=201 等待应用回执超时".to_owned()]
    );
}

#[test]
fn repeated_commands_are_sent_at_their_times() {
    let mut session = session();
    let mut read = request(DispatchAction::Read);
    read.repeat = 3;
    read.interval_ms = 40;
    session.schedule_or_execute(read, at(10)).expect("read");
    assert_eq!(session.scheduled.len(), 2);
    assert_eq!(sent(&session.home.desk.take_outputs()).len(), 1);
    session.tick(at(49));
    assert!(sent(&session.home.desk.take_outputs()).is_empty());
    session.tick(at(50));
    session.tick(at(90));
    assert_eq!(sent(&session.home.desk.take_outputs()).len(), 2);
    assert!(session.scheduled.is_empty());
    assert!(session.applications.is_empty());
}

#[test]
fn interrogations_are_sent_once_and_expire() {
    let mut session = session();
    let mut asked = request(DispatchAction::GeneralInterrogation);
    asked.repeat = 5;
    session.schedule_or_execute(asked, at(10)).expect("interrogation");
    let outputs = session.home.desk.take_outputs();
    assert_eq!(sent(&outputs).len(), 1);
    assert_eq!(
        summaries(outputs),
        vec!["召唤事务不支持重复发送，已按一次执行".to_owned()]
    );
    assert_eq!(
        session.schedule_or_execute(request(DispatchAction::GeneralInterrogation), at(11)),
        Err("总召已有未完成轮次".to_owned())
    );
    session.link.process(Frame::S { receive: 1 }, 11).expect("acknowledged");
    session.home.desk.take_outputs();
    session.tick(at(1_010));
    assert_eq!(
        summaries(session.home.desk.take_outputs()),
        vec!["总召轮次失败，保留上一份完整快照: 等待 ACTTERM 超时".to_owned()]
    );
    assert!(session.rounds.is_idle());
}

#[test]
fn an_interrogation_that_cannot_be_sent_is_given_up() {
    let mut session = session();
    session.link.config.k = 0;
    assert_eq!(
        session.schedule_or_execute(request(DispatchAction::CounterInterrogation), at(10)),
        Err("发送窗口已满 K=0".to_owned())
    );
    assert!(session.rounds.is_idle());
    let mut broken = request(DispatchAction::SingleControl);
    broken.value = number(2.0);
    assert_eq!(
        session.schedule_or_execute(broken, at(10)),
        Err("单点遥控值只能为 0 或 1".to_owned())
    );
}

#[test]
fn clock_commands_await_what_they_became_when_they_were_registered() {
    let mut desk = desk();
    let mut asked = request(DispatchAction::ClockSync);
    asked.clock_time_ms = Some(1_700_000_000_000);
    let mut later = asked;
    later.clock_time_ms = Some(1_700_000_000_001);
    let mut pending = PendingApplications::new();
    assert_eq!(pending.expect(asked, Ok(Some(built(&later))), 1, 1_000, at(1)), Ok(()));
    pending.handle(&response_for(&asked, COT_ACTIVATION_CONFIRMATION, false, 1), at(2), &mut desk);
    assert_eq!(pending.len(), 1);
    pending.handle(&response_for(&later, COT_ACTIVATION_CONFIRMATION, false, 1), at(2), &mut desk);
    assert!(pending.is_empty());
    assert_eq!(pending.register(asked, 1, 1_000, at(3)), Ok(()));
    pending.handle(&response_for(&asked, COT_ACTIVATION_CONFIRMATION, false, 1), at(4), &mut desk);
    assert!(pending.is_empty());
    assert_eq!(
        pending.expect(asked, Err("无".to_owned()), 1, 1_000, at(5)),
        Err("无".to_owned())
    );
    assert!(pending.is_empty());
    let mut session = session();
    session
        .schedule_or_execute(request(DispatchAction::ClockSync), at(10))
        .expect("clock");
    assert_eq!(session.applications.len(), 1);
}

#[test]
fn negative_zero_confirms_zero() {
    let mut desk = desk();
    let mut asked = request(DispatchAction::FloatSetpoint);
    asked.value = number(0.0);
    let mut pending = PendingApplications::new();
    pending.register(asked, 1, 1_000, at(1)).expect("registered");
    let mut other = asked;
    other.value = number(-0.0);
    pending.handle(
        &response_for(&other, COT_ACTIVATION_CONFIRMATION, false, 1),
        at(2),
        &mut desk,
    );
    assert!(pending.entries[0].accepted);
    pending.handle(
        &response_for(&asked, COT_ACTIVATION_TERMINATION, true, 1),
        at(3),
        &mut desk,
    );
    assert!(pending.is_empty());
    let last = summaries(desk.take_outputs()).pop().expect("line");
    assert_eq!(last, "短浮点遥调 C_SE_NC_1 IOA=201 收到否定 ACTTERM");
}

#[test]
fn selections_are_over_with_their_confirmation() {
    let mut desk = desk();
    let mut asked = request(DispatchAction::DoubleControl);
    asked.phase = ControlPhase::Select;
    let mut pending = PendingApplications::new();
    pending.register(asked, 1, 1_000, at(1)).expect("registered");
    pending.register(request(DispatchAction::Read), 1, 9, at(1)).expect("nothing to register");
    assert_eq!(pending.len(), 1);
    pending.handle(
        &response_for(&asked, COT_ACTIVATION_CONFIRMATION, false, 1),
        at(2),
        &mut desk,
    );
    assert!(pending.is_empty());
}

#[test]
fn expected_tables_are_reloaded_in_two_steps() {
    let mut busy = session_with_pending();
    assert_eq!(
        busy.command(
            DispatchCommand::PrepareReload { generation: 1, points: points() },
            at(11)
        ),
        Some(Err("调度侧存在未完成召唤、应用回执或定时发送".to_owned()))
    );
    let mut session = session();
    assert_eq!(
        session.command(
            DispatchCommand::PrepareReload { generation: 1, points: Vec::new() },
            at(11)
        ),
        Some(Ok(()))
    );
    assert_eq!(session.home.expected.points.len(), 4);
    session.home.desk.take_outputs();
    assert_eq!(
        session.command(DispatchCommand::Execute(request(DispatchAction::Read)), at(12)),
        None
    );
    assert_eq!(
        summaries(session.home.desk.take_outputs()),
        vec!["读命令 C_RD_NA_1本地拒绝：点表重载已准备，等待提交或取消".to_owned()]
    );
    assert_eq!(
        session.command(DispatchCommand::CommitReload { generation: 2 }, at(13)),
        Some(Err("调度侧待提交版本为 1，收到版本 2".to_owned()))
    );
    assert_eq!(
        session.command(DispatchCommand::CommitReload { generation: 1 }, at(13)),
        Some(Ok(()))
    );
    assert!(session.home.expected.points.is_empty());

    let mut side = side();
    side.command(DispatchCommand::PrepareReload { generation: 7, points: Vec::new() }, at(1));
    assert_eq!(side.command(DispatchCommand::AbortReload(7), at(1)), None);
    assert_eq!(
        side.command(DispatchCommand::CommitReload { generation: 7 }, at(1)),
        Some(Err("调度侧没有待提交的重载版本 7".to_owned()))
    );
    side.command(DispatchCommand::Execute(request(DispatchAction::Read)), at(2));
    assert_eq!(
        summaries(side.desk.take_outputs()),
        vec!["读命令 C_RD_NA_1本地拒绝：调度 TCP 尚未连接".to_owned()]
    );
}

#[test]
fn connecting_is_shown_in_its_phases() {
    let mut side = side();
    side.connecting(at(1));
    assert_eq!(side.desk.view.phase, ConnectionPhase::Connecting);
    side.connect_failed("拒绝", at(2));
    assert_eq!(side.desk.view.detail, "3000 ms 后重试");
    side.connect_timed_out(at(3));
    side.connected(Some("10.0.0.2:2404".to_owned()), at(4));
    assert_eq!(side.desk.view.phase, ConnectionPhase::ConnectedStopped);
    side.delay_kept("无效", at(4));
    side.session_ended();
    assert_eq!(side.desk.view.detail, "连接断开，3000 ms 后重试");
    side.stop();
    assert_eq!(side.desk.view.phase, ConnectionPhase::Disabled);
    assert_eq!(
        summaries(side.desk.take_outputs()),
        vec![
            "正在连接调度子站 127.0.0.1:2404",
            "连接调度子站失败: 拒绝",
            "连接调度子站超时（T0=10000 ms）",
            "调度 TCP 已连接，当前保持 CONNECTED_STOPPED",
            "设置 TCP_NODELAY 失败: 无效",
        ]
    );
    let mut session = session_with_pending();
    session.home.desk.take_outputs();
    session.read_failed("断开", at(11));
    assert_eq!(
        summaries(session.home.desk.take_outputs()),
        vec![
            "调度连接已结束: 断开".to_owned(),
            "已取消 1 个未完成应用事务: 连接断开".to_owned(),
        ]
    );
    session.shut_down(at(12));
    assert!(session.home.desk.take_outputs().is_empty());
}

fn failing(session: &mut DispatchSession, writes: Vec<Option<&str>>) {
    session.link.writes = writes.into_iter().map(|text| text.map(str::to_owned)).collect();
}

#[test]
fn commands_that_cannot_be_written_await_nothing() {
    let mut session = session();
    session.home.desk.take_outputs();
    failing(&mut session, vec![Some("断开")]);
    assert_eq!(
        session.schedule_or_execute(request(DispatchAction::SingleControl), at(10)),
        Err("发送 I 帧失败: 断开".to_owned())
    );
    assert!(session.applications.is_empty());
    assert_eq!(session.link.sent_counter, 0);
    failing(&mut session, vec![Some("断开")]);
    assert_eq!(
        session.schedule_or_execute(request(DispatchAction::StopDt), at(11)),
        Err("发送 APDU 失败: 断开".to_owned())
    );
    assert!(session.link.is_active());
    let mut stopped = stopped();
    failing(&mut stopped, vec![Some("断开")]);
    assert_eq!(
        stopped.schedule_or_execute(request(DispatchAction::StartDt), at(11)),
        Err("发送 APDU 失败: 断开".to_owned())
    );
    assert_eq!(stopped.link.phase(), ConnectionPhase::ConnectedStopped);
}

#[test]
fn an_acknowledgement_that_cannot_be_written_ends_what_is_under_way() {
    let mut session = session_with_pending();
    session.home.desk.take_outputs();
    failing(&mut session, vec![Some("断开")]);
    let test = Frame::U(LinkFunction::TestActivation.frame());
    assert_eq!(session.receive(test, &Vec::new(), at(11)), SessionExit::Disconnect);
    assert_eq!(
        summaries(session.home.desk.take_outputs()),
        vec![
            "调度链路处理失败: 发送 APDU 失败: 断开".to_owned(),
            "已取消 1 个未完成应用事务: 协议错误".to_owned(),
        ]
    );
}

#[test]
fn two_types_on_an_unconfigured_address_are_both_unconfigured() {
    let expected = ExpectedPoints::new(points());
    let objects = |element: Element| {
        InformationObjects::Known(vec![InformationObject { address: 7, element }])
    };
    let mut stray = general_data(1, 0);
    stray.information_objects = objects(Element::NormalizedNoQuality { nva: -3 });
    let mut rows = rows_from_asdu(&stray, &Vec::new());
    stray.type_id = TypeId::M_SP_NA_1;
    stray.information_objects = objects(Element::SinglePoint {
        siq: Siq { iv: false, nt: false, sb: false, bl: false, spi: Spi::On },
    });
    rows.extend(rows_from_asdu(&stray, &Vec::new()));
    let merged = merge_values(expected.general_views(), &rows);
    let names: Vec<&str> =
        merged.iter().filter(|row| row.ioa == 7).map(|row| row.name.as_str()).collect();
    assert_eq!(names, vec!["未配置 IOA", "未配置 IOA"]);
}
