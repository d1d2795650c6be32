//! The collecting side.

use agcavc104test::config::{CollectPointConfig, CollectSettings};
use agcavc104test::model::{
    AddressingMode, CollectCommand, CollectPointKind, ConnectionPhase, ControlKind, ControlPhase,
    DefaultResponseMode, FaultPolicy, Moment, PointPurpose, PointView, RuntimeEvent, UploadKind,
};
use agcavc104test::number::{Real, Sample};
use agcavc104test::protocol::asdu::make_asdu;
use agcavc104test::protocol::collect::{
    counter_group, demand, CollectSession, CollectSide, Control, ControlInput,
    Demand, SessionExit, MAX_DEFERRED_ASDUS,
};
use agcavc104test::protocol::desk::{log_link_event, Output};
use agcavc104test::protocol::element::{
    Element, InformationObject, Qualifier, Rcs, SelectExecute, Spi, TypeId,
};
use agcavc104test::protocol::frame::parse_frame;
use agcavc104test::protocol::message::{Asdu, Frame, InformationObjects, LinkFunction};
use agcavc104test::protocol::station::ControlRequest;
use agcavc104test::protocol::wire::LinkConfig;

fn sample(value: f64) -> Sample {
    Sample {
        value: Real { double: value.to_bits(), single: (value as f32).to_bits() },
        plain: format!("{value}"),
        rounded: format!("{value:.0}"),
        fixed: format!("{value:.3}"),
    }
}

fn point(ioa: u32, kind: CollectPointKind, min: f64, max: f64) -> CollectPointConfig {
    CollectPointConfig {
        name: format!("点{ioa}"),
        ioa,
        kind,
        purpose: PointPurpose::Data,
        control: None,
        group: 1,
        initial: sample(0.0),
        min: sample(min),
        max: sample(max),
        step: Real { double: 0.5f64.to_bits(), single: 0.5f32.to_bits() },
        soe: false,
        quality: "good".to_owned(),
        addressing: AddressingMode::Individual,
        response: DefaultResponseMode::Success,
        response_delay_ms: 0,
    }
}

fn target(ioa: u32, kind: CollectPointKind, control: ControlKind, max: f64) -> CollectPointConfig {
    CollectPointConfig {
        purpose: PointPurpose::ControlTarget,
        control: Some(control),
        ..point(ioa, kind, -max, max)
    }
}

fn points() -> Vec<CollectPointConfig> {
    vec![
        point(101, CollectPointKind::SinglePoint, 0.0, 1.0),
        point(16_385, CollectPointKind::Float, -100.0, 100.0),
        point(106, CollectPointKind::Counter, 0.0, 1000.0),
        CollectPointConfig {
            min: sample(0.0),
            ..target(24_577, CollectPointKind::SinglePoint, ControlKind::Single, 1.0)
        },
        target(24_578, CollectPointKind::Float, ControlKind::Setpoint, 50.0),
        target(24_579, CollectPointKind::Normalized, ControlKind::Regulating, 3.0),
    ]
}

fn at(tick_ms: u64) -> Moment {
    Moment { wall_ms: 1_000_000 + tick_ms, tick_ms }
}

fn side() -> CollectSide {
    let settings = CollectSettings { fault_delay_ms: 80, ..CollectSettings::default() };
    let mut side = CollectSide::new(&settings, 3, points(), at(0));
    side.desk.take_outputs();
    side
}

fn session() -> CollectSession {
    let config = LinkConfig { t1_ms: 15_000, t2_ms: 10_000, t3_ms: 20_000, k: 12, w: 8 };
    let mut session = CollectSession::connect(side(), config, at(0));
    let start = Frame::U(LinkFunction::StartActivation.frame());
    assert_eq!(session.receive(start, &sample(0.0), at(1)), SessionExit::Stay);
    assert!(session.link.is_active());
    session.home.desk.take_outputs();
    session
}

fn request(type_id: TypeId, address: u32, element: Element) -> Asdu {
    make_asdu(
        type_id,
        6,
        1,
        7,
        false,
        InformationObjects::Known(vec![InformationObject { address, element }]),
    )
}

fn single_control(se: SelectExecute) -> Asdu {
    request(
        TypeId::C_SC_NA_1,
        24_577,
        Element::SingleCommand { scs: Spi::On, qu: Qualifier { se, value: 0 } },
    )
}

/// The units that were sent.
fn sent(session: &mut CollectSession) -> Vec<Asdu> {
    session
        .home
        .desk
        .take_outputs()
        .iter()
        .filter_map(|output| match output {
            Output::Transmit(octets) => match parse_frame(octets).expect("frame") {
                Frame::I { asdu, .. } => Some(asdu),
                _ => None,
            },
            _ => None,
        })
        .collect()
}

fn causes(units: &[Asdu]) -> Vec<(u8, bool)> {
    units.iter().map(|unit| (unit.cot, unit.negative)).collect()
}

fn events(outputs: Vec<Output>) -> Vec<RuntimeEvent> {
    outputs
        .into_iter()
        .filter_map(|output| match output {
            Output::Event(event) => Some(event),
            _ => None,
        })
        .collect()
}

fn summaries(outputs: Vec<Output>) -> Vec<String> {
    events(outputs)
        .into_iter()
        .filter_map(|event| match event {
            RuntimeEvent::Log(entry) => Some(entry.summary),
            _ => None,
        })
        .collect()
}

fn value(session: &CollectSession, ioa: u32) -> f64 {
    let point = session
        .home
        .station
        .points
        .iter()
        .find(|point| point.config.ioa == ioa)
        .expect("point");
    f64::from_bits(point.value.value.double)
}

fn drawn(session: &CollectSession) -> Vec<Sample> {
    session.home.station.points.iter().map(|_| sample(7.25)).collect()
}

#[test]
fn manual_point_value_change_emits_fresh_collect_values() {
    let mut side = side();
    side.update_station_value(16_385, "M_ME_NC_1", sample(91.25), at(5));
    let mut events = events(side.desk.take_outputs()).into_iter();
    let values: Vec<PointView> = match events.next().expect("values event") {
        RuntimeEvent::CollectValues(values) => values,
        _ => panic!("expected collect values before the audit log"),
    };
    let value = values.iter().find(|row| row.ioa == 16_385).expect("float point");
    assert_eq!(value.value.as_deref(), Some("91.250"));
    assert!(value.updated_ms.is_some());
}

#[test]
fn delayed_control_response_does_not_pause_the_link_runtime() {
    let mut session = session();
    session.home.fault_policy = Some(FaultPolicy::DelaySuccess);
    let control = Control {
        request: single_control(SelectExecute::Execute),
        ioa: 24_577,
        kind: ControlKind::Single,
        asked: ControlRequest::State(Some(true)),
        phase: ControlPhase::Execute,
    };
    let result = session
        .control_response(control, &sample(1.0), at(10))
        .expect("schedule delayed reply");
    assert!(!result);
    assert_eq!(session.delayed.len(), 1);
    assert_eq!(session.tick(at(50)), SessionExit::Stay);
    assert_eq!(session.delayed.len(), 1);
    assert!(sent(&mut session).is_empty());

    session.flush_delayed_controls(at(100)).expect("flush delayed reply");
    assert!(session.delayed.is_empty());
    assert_eq!(value(&session, 24_577), 1.0);
    assert_eq!(causes(&sent(&mut session)), vec![(7, false), (10, false)]);
}

#[test]
fn interrogations_are_confirmed_reported_and_terminated() {
    let mut session = session();
    let unit = request(TypeId::C_IC_NA_1, 0, Element::Interrogation { qoi: 20 });
    assert_eq!(session.handle_asdu(unit, &sample(0.0), at(5)), Ok(false));
    let units = sent(&mut session);
    assert_eq!(causes(&units), vec![(7, false), (20, false), (20, false), (10, false)]);
    assert!(units.iter().all(|unit| unit.originator_address == 7 && unit.address_field == 1));
    let unit = request(TypeId::C_IC_NA_1, 0, Element::Interrogation { qoi: 19 });
    assert_eq!(session.handle_asdu(unit, &sample(0.0), at(5)), Ok(false));
    assert_eq!(causes(&sent(&mut session)), vec![(45, true)]);
    let unit = request(TypeId::C_CI_NA_1, 0, Element::CounterInterrogation { rqt: 5, frz: 0 });
    assert_eq!(session.handle_asdu(unit, &sample(0.0), at(5)), Ok(false));
    assert_eq!(causes(&sent(&mut session)), vec![(7, false), (37, false), (10, false)]);
    assert_eq!(counter_group(4), Some(4));
    assert_eq!(counter_group(5), None);
}

#[test]
fn requests_for_another_station_are_refused() {
    let mut session = session();
    let mut unit = single_control(SelectExecute::Execute);
    unit.address_field = 2;
    assert_eq!(session.handle_asdu(unit, &sample(0.0), at(5)), Ok(false));
    let units = sent(&mut session);
    assert_eq!(causes(&units), vec![(46, true)]);
    assert_eq!(units[0].address_field, 1);
    assert_eq!(value(&session, 24_577), 0.0);
    let mut unit = single_control(SelectExecute::Execute);
    unit.address_field = u16::MAX;
    assert_eq!(session.handle_asdu(unit, &sample(0.0), at(5)), Ok(false));
    assert_eq!(causes(&sent(&mut session)), vec![(7, false), (10, false)]);
    assert_eq!(value(&session, 24_577), 1.0);
}

#[test]
fn only_an_executed_command_changes_the_value() {
    let mut session = session();
    let unit = single_control(SelectExecute::Select);
    assert_eq!(session.handle_asdu(unit, &sample(0.0), at(5)), Ok(false));
    assert_eq!(causes(&sent(&mut session)), vec![(7, false)]);
    assert_eq!(value(&session, 24_577), 0.0);
    let unit = request(
        TypeId::C_SC_NA_1,
        9,
        Element::SingleCommand {
            scs: Spi::On,
            qu: Qualifier { se: SelectExecute::Execute, value: 0 },
        },
    );
    assert_eq!(session.handle_asdu(unit, &sample(0.0), at(5)), Ok(false));
    assert_eq!(causes(&sent(&mut session)), vec![(47, true)]);
}

#[test]
fn policies_are_used_once() {
    let cases = [
        (FaultPolicy::RejectExecute, vec![(7, true)], false, SessionExit::Stay),
        (FaultPolicy::ActConOnly, vec![(7, false)], false, SessionExit::Stay),
        (FaultPolicy::Silent, vec![], false, SessionExit::Stay),
        (FaultPolicy::Disconnect, vec![], false, SessionExit::Disconnect),
        (FaultPolicy::Success, vec![(7, false), (10, false)], true, SessionExit::Stay),
    ];
    for (policy, expected, changes, exit) in cases {
        let mut session = session();
        session.home.fault_policy = Some(policy);
        let closed = session.process_business_asdu(
            single_control(SelectExecute::Execute),
            &sample(0.0),
            at(5),
        );
        assert_eq!(closed, exit == SessionExit::Disconnect);
        assert_eq!(causes(&sent(&mut session)), expected, "{policy:?}");
        assert_eq!(value(&session, 24_577) == 1.0, changes);
        assert_eq!(session.home.fault_policy, None);
    }
    let mut session = session();
    session.home.fault_policy = Some(FaultPolicy::RejectSelect);
    session.process_business_asdu(single_control(SelectExecute::Execute), &sample(0.0), at(5));
    assert_eq!(session.home.fault_policy, Some(FaultPolicy::RejectSelect));
}

#[test]
fn steps_and_set_points_take_computed_values() {
    let mut session = session();
    let unit = request(
        TypeId::C_RC_NA_1,
        24_579,
        Element::RegulatingCommand {
            rcs: Rcs::Increment,
            qu: Qualifier { se: SelectExecute::Execute, value: 0 },
        },
    );
    match session.control_input(&unit) {
        ControlInput::Stepped { current, up, .. } => {
            assert_eq!(f64::from_bits(current.double), 0.0);
            assert!(up);
        },
        _ => panic!("expected a step"),
    }
    assert_eq!(session.handle_asdu(unit, &sample(0.5), at(5)), Ok(false));
    assert_eq!(value(&session, 24_579), 0.5);
    let bits = 12.5f32.to_bits();
    let unit = request(
        TypeId::C_SE_NC_1,
        24_578,
        Element::FloatSetpoint {
            bits,
            qos: Qualifier { se: SelectExecute::Execute, value: 0 },
        },
    );
    assert_eq!(session.control_input(&unit), ControlInput::Setpoint { bits });
    assert_eq!(session.handle_asdu(unit, &sample(12.5), at(5)), Ok(false));
    assert_eq!(value(&session, 24_578), 12.5);
}

#[test]
fn unknown_and_empty_requests_are_told_apart() {
    let mut session = session();
    let read = request(TypeId::C_RD_NA_1, 5, Element::Read);
    assert_eq!(demand(&read), Demand::Unknown);
    assert_eq!(session.handle_asdu(read, &sample(0.0), at(5)), Ok(false));
    assert_eq!(
        summaries(session.home.desk.take_outputs()),
        vec!["当前采集模拟器不处理 TypeID=C_RD_NA_1".to_owned()]
    );
    let mut empty = single_control(SelectExecute::Execute);
    empty.information_objects = InformationObjects::Known(Vec::new());
    assert_eq!(
        session.handle_asdu(empty, &sample(0.0), at(5)),
        Err("单点控制没有信息体".to_owned())
    );
}

#[test]
fn reports_need_an_active_link_and_matching_points() {
    let mut session = session();
    let samples = drawn(&session);
    session.handle_upload(UploadKind::Float, &samples, at(5)).expect("upload");
    assert_eq!(value(&session, 16_385), 7.25);
    let outputs = session.home.desk.take_outputs();
    let last = summaries(outputs).pop().expect("summary");
    assert_eq!(last, "全部短浮点遥测变化上送完成，共刷新 1 个点");
    assert_eq!(
        session.handle_upload(UploadKind::DoublePoint, &samples, at(5)),
        Err("点表中没有与该操作匹配的可上送点".to_owned())
    );
    session.handle_upload(UploadKind::InitializationEnd, &samples, at(5)).expect("end");
    let units = sent(&mut session);
    assert_eq!(units[0].type_id, TypeId::M_EI_NA_1);
    assert_eq!(units[0].originator_address, 3);
    let stop = Frame::U(LinkFunction::StopActivation.frame());
    session.receive(stop, &sample(0.0), at(6));
    assert_eq!(
        session.handle_upload(UploadKind::Float, &samples, at(7)),
        Err("链路状态 已连接/未启动传输，需要先完成 STARTDT".to_owned())
    );
}

#[test]
fn a_report_that_does_not_fit_the_window_changes_no_value() {
    let mut session = session();
    session.link.config.k = 0;
    let samples = drawn(&session);
    assert_eq!(
        session.handle_upload(UploadKind::Float, &samples, at(5)),
        Err("发送窗口已满 K=0".to_owned())
    );
    assert_eq!(value(&session, 16_385), 0.0);
}

#[test]
fn units_wait_while_a_table_is_prepared() {
    let mut session = session();
    let samples = drawn(&session);
    let result = session.command(
        CollectCommand::PrepareReload { generation: 4, points: points() },
        &samples,
        at(5),
    );
    assert_eq!(result.reply, Some(Ok(())));
    let unit = Frame::I { send: 0, receive: 0, asdu: single_control(SelectExecute::Execute) };
    assert_eq!(session.receive(unit, &sample(0.0), at(6)), SessionExit::Stay);
    assert_eq!(session.deferred.len(), 1);
    assert_eq!(value(&session, 24_577), 0.0);

    let result = session.command(CollectCommand::CommitReload { generation: 5 }, &samples, at(7));
    assert_eq!(result.reply, Some(Err("采集侧待提交版本为 4，收到版本 5".to_owned())));
    let result = session.command(CollectCommand::CommitReload { generation: 4 }, &samples, at(7));
    assert_eq!(result.reply, Some(Ok(())));
    assert!(result.resolved);
    assert_eq!(session.replay_deferred(&sample(0.0), at(8)), SessionExit::Stay);
    assert!(session.deferred.is_empty());
    assert_eq!(value(&session, 24_577), 1.0);

    session.command(
        CollectCommand::PrepareReload { generation: 6, points: points() },
        &samples,
        at(9),
    );
    let result = session.command(CollectCommand::AbortReload(6), &samples, at(9));
    assert!(result.resolved);
    let result = session.command(CollectCommand::CommitReload { generation: 6 }, &samples, at(9));
    assert_eq!(result.reply, Some(Err("采集侧没有待提交的重载版本 6".to_owned())));
}

#[test]
fn a_full_buffer_closes_the_link() {
    let mut session = session();
    session.home.prepared = Some((1, session.home.station.copy()));
    for index in 0..MAX_DEFERRED_ASDUS {
        let unit = Frame::I {
            send: index as u16,
            receive: 0,
            asdu: single_control(SelectExecute::Execute),
        };
        assert_eq!(session.receive(unit, &sample(0.0), at(2)), SessionExit::Stay);
    }
    let unit = Frame::I {
        send: MAX_DEFERRED_ASDUS as u16,
        receive: 0,
        asdu: single_control(SelectExecute::Execute),
    };
    assert_eq!(session.receive(unit, &sample(0.0), at(3)), SessionExit::Disconnect);
}

#[test]
fn delayed_answers_hold_a_reload_back() {
    let mut session = session();
    session.home.fault_policy = Some(FaultPolicy::DelaySuccess);
    session.process_business_asdu(single_control(SelectExecute::Execute), &sample(0.0), at(5));
    let samples = drawn(&session);
    let result = session.command(
        CollectCommand::PrepareReload { generation: 1, points: points() },
        &samples,
        at(6),
    );
    assert_eq!(result.reply, Some(Err("采集侧有 1 条延迟控制回执未完成".to_owned())));
}

#[test]
fn a_side_without_a_peer_takes_commands() {
    let mut side = side();
    assert_eq!(side.command(CollectCommand::Upload(UploadKind::Float), at(1)), None);
    assert_eq!(
        summaries(side.desk.take_outputs()),
        vec!["全部短浮点遥测变化上送失败：采集链路尚未连接".to_owned()]
    );
    side.command(CollectCommand::SetFaultPolicy(Some(FaultPolicy::Silent)), at(1));
    assert_eq!(side.fault_policy, Some(FaultPolicy::Silent));
    side.command(
        CollectCommand::SetPointValue {
            ioa: 101,
            type_id: "M_SP_NA_1".to_owned(),
            value: sample(2.0),
        },
        at(1),
    );
    let last = summaries(side.desk.take_outputs()).pop().expect("summary");
    assert!(last.starts_with("手工修改采集点失败: "), "{last}");
}

#[test]
fn the_connection_is_shown_in_its_phases() {
    let mut side = side();
    side.listening(at(1));
    side.accept("10.0.0.1:5000".to_owned(), at(2));
    assert_eq!(side.desk.view.phase, ConnectionPhase::ConnectedStopped);
    assert_eq!(side.desk.view.peer.as_deref(), Some("10.0.0.1:5000"));
    side.session_ended();
    assert_eq!(side.desk.view.phase, ConnectionPhase::Listening);
    assert_eq!(side.desk.view.peer, None);
    side.listen_failed("占用", at(3));
    assert_eq!(side.desk.view.detail, "监听失败: 占用");
    side.accept_failed("中断", at(4));
    side.stop();
    assert_eq!(side.desk.view.phase, ConnectionPhase::Disabled);
    let lines = summaries(side.desk.take_outputs());
    assert_eq!(
        lines,
        vec![
            "采集侧正在监听 127.0.0.1:2405",
            "采集主站 10.0.0.1:5000 已建立 TCP 连接，等待 STARTDT",
            "采集侧监听 127.0.0.1:2405 失败: 占用",
            "接受采集连接失败: 中断",
        ]
    );
}

#[test]
fn link_events_become_log_entries() {
    let mut session = session();
    session.handle_asdu(single_control(SelectExecute::Select), &sample(0.0), at(5)).expect("ok");
    let outputs = session.home.desk.take_outputs();
    let entry = outputs
        .iter()
        .find_map(|output| match output {
            Output::Link { at, event } => Some(log_link_event(
                session.home.desk.side,
                *at,
                event,
                &Vec::new(),
            )),
            _ => None,
        })
        .expect("link event");
    assert_eq!(entry.timestamp_ms, 1_000_005);
    assert_eq!(
        entry.summary,
        "I帧 N(S)=0 N(R)=0 · C_SC_NA_1 单点遥控 COT=激活确认 CA=1 OA=7 SQ=0 对象=1 · IOA24577=1/合 Select"
    );
    assert_eq!(entry.protocol.expect("meta").ioas, vec![24_577]);
}

#[test]
fn setting_a_value_sends_nothing() {
    let mut session = session();
    let command = CollectCommand::SetPointValue {
        ioa: 101,
        type_id: "M_SP_NA_1".to_owned(),
        value: sample(1.0),
    };
    let drawn = drawn(&session);
    session.command(command, &drawn, at(5));
    let outputs = session.home.desk.take_outputs();
    assert_eq!(outputs.len(), 2);
    assert!(outputs.iter().all(|output| matches!(output, Output::Event(_))));
    assert_eq!(value(&session, 101), 1.0);
}

#[test]
fn a_connection_that_delays_is_reported() {
    let mut side = side();
    side.delay_kept("无效", at(1));
    assert_eq!(
        summaries(side.desk.take_outputs()),
        vec!["设置 TCP_NODELAY 失败: 无效".to_owned()]
    );
}

#[test]
fn commands_keep_values_in_their_ranges() {
    let mut session = session();
    let far: Vec<Sample> = drawn(&session).iter().map(|_| sample(5000.0)).collect();
    let mut narrow = points();
    narrow[1].max = sample(50.0);
    let commands = vec![
        CollectCommand::Upload(UploadKind::RefreshAll),
        CollectCommand::SetPointValue {
            ioa: 16_385,
            type_id: "M_ME_NC_1".to_owned(),
            value: sample(250.0),
        },
        CollectCommand::PrepareReload { generation: 4, points: narrow },
        CollectCommand::CommitReload { generation: 4 },
        CollectCommand::SetFaultPolicy(Some(FaultPolicy::Silent)),
        CollectCommand::AbortReload(5),
    ];
    for command in commands {
        session.command(command, &far, at(5));
        assert!(session.home.station.is_sound());
    }
    assert_eq!(value(&session, 16_385), 0.0);
}

fn failing(session: &mut CollectSession, writes: Vec<Option<&str>>) {
    session.link.writes = writes.into_iter().map(|text| text.map(str::to_owned)).collect();
}

#[test]
fn an_answer_that_cannot_be_written_commits_nothing() {
    for (writes, sent_causes) in [
        (vec![Some("断开")], vec![]),
        (vec![None, Some("断开")], vec![(7, false)]),
    ] {
        let mut session = session();
        failing(&mut session, writes);
        let unit = single_control(SelectExecute::Execute);
        assert!(!session.process_business_asdu(unit, &sample(0.0), at(5)));
        assert_eq!(value(&session, 24_577), 0.0);
        assert!(session.link.writes.is_empty());
        let outputs = session.home.desk.take_outputs();
        let lines = outputs.iter().filter_map(|output| match output {
            Output::Event(RuntimeEvent::Log(entry)) => Some(entry.summary.as_str()),
            _ => None,
        });
        assert_eq!(lines.collect::<Vec<_>>(), vec!["处理采集请求失败: 发送 I 帧失败: 断开"]);
        let units = outputs.iter().filter_map(|output| match output {
            Output::Transmit(octets) => match parse_frame(octets).expect("frame") {
                Frame::I { asdu, .. } => Some((asdu.cot, asdu.negative)),
                _ => None,
            },
            _ => None,
        });
        assert_eq!(units.collect::<Vec<_>>(), sent_causes);
    }
}

#[test]
fn a_report_that_cannot_be_written_changes_no_value() {
    let mut session = session();
    let before = format!("{:?}", session.home.station);
    failing(&mut session, vec![None, Some("断开")]);
    let drawn = drawn(&session);
    session.command(CollectCommand::Upload(UploadKind::RefreshAll), &drawn, at(5));
    assert_eq!(format!("{:?}", session.home.station), before);
    assert_eq!(session.link.sent_counter, 1);
    let last = summaries(session.home.desk.take_outputs()).pop().expect("line");
    assert_eq!(last, format!("{}失败: 发送 I 帧失败: 断开", UploadKind::RefreshAll.label()));
}

#[test]
fn link_frames_that_cannot_be_written_end_the_session() {
    let mut session = session();
    failing(&mut session, vec![Some("断开")]);
    let stop = Frame::U(LinkFunction::StopActivation.frame());
    assert_eq!(session.receive(stop, &sample(0.0), at(2)), SessionExit::Disconnect);
    assert!(session.link.is_active());
    failing(&mut session, vec![Some("断开")]);
    assert_eq!(session.tick(at(30_000)), SessionExit::Disconnect);
    assert_eq!(
        summaries(session.home.desk.take_outputs()),
        vec![
            "采集链路处理失败: 发送 APDU 失败: 断开".to_owned(),
            "采集链路计时器失败: 发送 APDU 失败: 断开".to_owned(),
        ]
    );
}

#[test]
fn a_delayed_answer_that_cannot_be_written_ends_the_session() {
    let mut session = session();
    let drawn = drawn(&session);
    let policy = CollectCommand::SetFaultPolicy(Some(FaultPolicy::DelaySuccess));
    session.command(policy, &drawn, at(2));
    let unit = single_control(SelectExecute::Execute);
    assert_eq!(session.handle_asdu(unit, &sample(0.0), at(5)), Ok(false));
    session.home.desk.take_outputs();
    failing(&mut session, vec![Some("断开")]);
    assert_eq!(session.tick(at(100)), SessionExit::Disconnect);
    assert_eq!(value(&session, 24_577), 0.0);
    assert_eq!(
        summaries(session.home.desk.take_outputs()),
        vec!["发送延迟控制回执失败: 发送 I 帧失败: 断开".to_owned()]
    );
}
