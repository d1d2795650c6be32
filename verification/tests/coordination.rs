//! What the operator sees, and reloads.

use agcavc104test::config::{
    CollectSettings, DispatchPointConfig, DispatchSettings, ProtocolSettings, ToolConfig, UiSettings,
};
use agcavc104test::model::{
    CollectCommand, ConnectionPhase, ControlPhase, Direction, DispatchAction, DispatchCommand,
    DispatchRequest, FaultPolicy, LogCategory, LogEntry, PointView, RuntimeCommand, RuntimeEvent,
    Severity, Side, SnapshotKind, UploadKind,
};
use agcavc104test::number::{Real, Sample};
use agcavc104test::runtime::{
    initial_snapshot, merge_current_values, preserve_current_values, preserve_values, push_log,
    reduce, runtime_command_label, Action, Coordinator, Offer, ReloadPoints, ReloadStep,
};
use std::collections::VecDeque;

fn config() -> ToolConfig {
    ToolConfig {
        protocol: ProtocolSettings::default(),
        collect: CollectSettings::default(),
        dispatch: DispatchSettings::default(),
        ui: UiSettings::default(),
        collect_points: Vec::new(),
        dispatch_points: Vec::new(),
    }
}

fn point(ioa: u32, type_id: &str, value: &str, configured: bool) -> PointView {
    PointView {
        ioa,
        name: "测试点".to_owned(),
        type_id: type_id.to_owned(),
        kind_name: "测试类型".to_owned(),
        value: Some(value.to_owned()),
        quality: "GOOD".to_owned(),
        updated_ms: Some(1),
        configured,
    }
}

fn entry(summary: &str) -> LogEntry {
    LogEntry::at(
        5,
        Side::System,
        Direction::Internal,
        Severity::Normal,
        LogCategory::Connection,
        summary.to_owned(),
    )
}

fn request() -> DispatchRequest {
    DispatchRequest {
        action: DispatchAction::Read,
        ioa: 1,
        value: Real { double: 0, single: 0 },
        phase: ControlPhase::Execute,
        common_address: 1,
        originator_address: 0,
        qualifier: 0,
        test: false,
        qoi: 20,
        qcc_request: 5,
        qcc_freeze: 0,
        repeat: 1,
        interval_ms: 1,
        clock_time_ms: None,
    }
}

fn tables() -> ReloadPoints {
    ReloadPoints { collect: Vec::new(), dispatch: Vec::new() }
}

fn last_system(coordinator: &Coordinator) -> (Severity, String) {
    let entry = coordinator.snapshot.system_logs.back().expect("system log");
    (entry.severity, entry.summary.clone())
}

/// A coordinator that has both sides preparing.
fn preparing(generation: u64) -> Coordinator {
    let mut coordinator = Coordinator::new(&config());
    coordinator.generation = generation - 1;
    assert!(matches!(coordinator.command(RuntimeCommand::ReloadConfig, 1), Action::Load));
    match coordinator.loaded(Ok(tables()), 2) {
        Action::Prepare { generation: found, .. } => assert_eq!(found, generation),
        _ => panic!("expected a preparation"),
    }
    let action = coordinator.reload_queued(ReloadStep::Prepare, generation, None, 3);
    assert!(matches!(action, Action::Wait));
    coordinator
}

fn committing(generation: u64) -> Coordinator {
    let mut coordinator = preparing(generation);
    assert!(matches!(coordinator.collect_replied(Some(Ok(())), 4), Action::Wait));
    match coordinator.dispatch_replied(Some(Ok(())), 5) {
        Action::Commit { generation: found } => assert_eq!(found, generation),
        _ => panic!("expected a commit"),
    }
    coordinator.reload_queued(ReloadStep::Commit, generation, None, 6);
    coordinator
}

#[test]
fn soe_updates_the_matching_current_indication_without_touching_the_snapshot() {
    let config = config();
    let mut snapshot = initial_snapshot(&config);
    snapshot.dispatch_current_general = vec![point(1, "M_SP_NA_1", "0/分", true)];
    snapshot.dispatch_general = vec![point(1, "M_SP_NA_1", "0/分", true)];

    reduce(
        &mut snapshot,
        RuntimeEvent::DispatchValues {
            kind: SnapshotKind::General,
            values: vec![point(1, "M_SP_TB_1", "1/合", false)],
        },
        config.ui.log_capacity,
    );

    assert_eq!(snapshot.dispatch_current_general.len(), 1);
    assert_eq!(snapshot.dispatch_current_general[0].type_id, "M_SP_NA_1");
    assert_eq!(snapshot.dispatch_current_general[0].value.as_deref(), Some("1/合"));
    assert_eq!(snapshot.dispatch_general[0].value.as_deref(), Some("0/分"));
}

#[test]
fn point_reload_commits_both_sides_only_after_both_prepare() {
    let mut coordinator = committing(1);
    assert!(coordinator.snapshot.system_logs.is_empty());
    assert!(matches!(coordinator.collect_replied(Some(Ok(())), 7), Action::Wait));
    assert!(coordinator.snapshot.system_logs.is_empty());
    assert!(matches!(coordinator.dispatch_replied(Some(Ok(())), 8), Action::Wait));
    let (severity, summary) = last_system(&coordinator);
    assert_eq!(severity, Severity::Success);
    assert!(summary.contains("确认提交"));
}

#[test]
fn point_reload_aborts_both_sides_when_one_prepare_rejects() {
    let mut coordinator = preparing(2);
    assert!(matches!(coordinator.collect_replied(Some(Ok(())), 4), Action::Wait));
    match coordinator.dispatch_replied(Some(Err("有未完成事务".to_owned())), 5) {
        Action::Abort { generation } => assert_eq!(generation, 2),
        _ => panic!("expected an abort"),
    }
    let (severity, summary) = last_system(&coordinator);
    assert_eq!(severity, Severity::Error);
    assert_eq!(summary, "两侧点表重载已取消，运行中配置不变: 有未完成事务");
    assert!(coordinator.reload.is_none());
}

#[test]
fn one_sided_commit_failure_stops_both_protocol_tasks() {
    let mut coordinator = committing(3);
    assert!(matches!(coordinator.collect_replied(Some(Ok(())), 7), Action::Wait));
    let action =
        coordinator.dispatch_replied(Some(Err("synthetic commit failure".to_owned())), 8);
    assert!(matches!(action, Action::Stop { abort: None }));
    let (severity, summary) = last_system(&coordinator);
    assert_eq!(severity, Severity::Error);
    assert!(summary.contains("已停止两侧协议任务"));
    assert!(!coordinator
        .snapshot
        .system_logs
        .iter()
        .any(|entry| entry.severity == Severity::Success));
}

#[test]
fn reload_wait_drains_protocol_events_under_backpressure() {
    let mut coordinator = preparing(1);
    coordinator.event(RuntimeEvent::ApplicationPending(1));
    coordinator.event(RuntimeEvent::ApplicationPending(2));
    assert!(matches!(coordinator.collect_replied(Some(Ok(())), 4), Action::Wait));
    assert!(matches!(
        coordinator.dispatch_replied(Some(Ok(())), 5),
        Action::Commit { generation: 1 }
    ));
    assert_eq!(coordinator.snapshot.application_pending, 2);
}

#[test]
fn reload_wait_honors_quit_without_waiting_for_participants() {
    let mut coordinator = preparing(4);
    let action = coordinator.command(RuntimeCommand::Quit, 4);
    assert!(matches!(action, Action::Stop { abort: Some(4) }));
    let mut coordinator = committing(4);
    let action = coordinator.command(RuntimeCommand::Quit, 7);
    assert!(matches!(action, Action::Stop { abort: None }));
    let coordinator = Coordinator::new(&config());
    assert!(matches!(coordinator.quit(), Action::Stop { abort: None }));
}

#[test]
fn commands_are_refused_while_a_reload_is_under_way() {
    let mut coordinator = preparing(1);
    let action = coordinator.command(RuntimeCommand::CollectUpload(UploadKind::Float), 4);
    assert!(matches!(action, Action::Wait));
    assert_eq!(
        last_system(&coordinator),
        (
            Severity::Warning,
            "点表重载准备中，采集主动上送命令已本地拒绝，请稍后重试".to_owned()
        )
    );
    assert_eq!(runtime_command_label(&RuntimeCommand::ReloadConfig), "重复配置重载命令");
}

#[test]
fn reloads_that_go_wrong_are_explained() {
    let mut coordinator = Coordinator::new(&config());
    coordinator.command(RuntimeCommand::ReloadConfig, 1);
    assert!(matches!(coordinator.loaded(Err("坏文件".to_owned()), 2), Action::Wait));
    assert_eq!(last_system(&coordinator).1, "配置重载失败，保留运行中配置: 坏文件");
    let full = Some(("Some(Full)".to_owned(), "None".to_owned()));
    let action = coordinator.reload_queued(ReloadStep::Prepare, 1, full, 3);
    assert!(matches!(action, Action::Wait));
    assert_eq!(
        last_system(&coordinator).1,
        "配置已校验，但无法同时预留两侧重载队列: collect=Some(Full), dispatch=None"
    );
    let full = Some(("None".to_owned(), "Some(Closed)".to_owned()));
    let action = coordinator.reload_queued(ReloadStep::Commit, 1, full, 4);
    assert!(matches!(action, Action::Abort { generation: 1 }));
    let mut coordinator = preparing(1);
    assert!(matches!(
        coordinator.reload_timed_out(9),
        Action::Abort { generation: 1 }
    ));
    assert_eq!(
        last_system(&coordinator).1,
        "两侧点表重载已取消，运行中配置不变: 重载准备等待超时（20000 ms）"
    );
    let mut coordinator = preparing(1);
    coordinator.collect_replied(None, 4);
    coordinator.dispatch_replied(Some(Err("忙".to_owned())), 5);
    assert_eq!(
        last_system(&coordinator).1,
        "两侧点表重载已取消，运行中配置不变: 采集侧重载准备回复通道关闭；忙"
    );
    coordinator.events_closed(6);
    assert!(!coordinator.events_open);
    assert_eq!(last_system(&coordinator).1, "两侧协议事件通道已关闭");
}

#[test]
fn generations_are_never_zero() {
    let mut coordinator = Coordinator::new(&config());
    coordinator.generation = u64::MAX;
    coordinator.command(RuntimeCommand::ReloadConfig, 1);
    assert_eq!(coordinator.generation, 1);
}

#[test]
fn commands_are_forwarded_and_marked() {
    let mut coordinator = Coordinator::new(&config());
    match coordinator.command(RuntimeCommand::CollectUpload(UploadKind::Float), 1) {
        Action::OfferCollect { command: CollectCommand::Upload(kind), offer } => {
            assert_eq!(kind, UploadKind::Float);
            coordinator.offered(&offer, None, 2);
        },
        _ => panic!("expected an upload"),
    }
    let mark = coordinator.snapshot.collect_logs.back().expect("mark");
    assert_eq!(mark.category, LogCategory::CommandDivider);
    assert_eq!(mark.summary, "━━━━━━━━━━ 手工下发：全部短浮点遥测变化上送 ━━━━━━━━━━");
    match coordinator.command(RuntimeCommand::Dispatch(request()), 3) {
        Action::OfferDispatch { command: DispatchCommand::Execute(found), offer } => {
            assert_eq!(found, request());
            coordinator.offered(&offer, Some("no available capacity".to_owned()), 4);
        },
        _ => panic!("expected a command"),
    }
    assert_eq!(
        last_system(&coordinator).1,
        "调度命令队列拒绝 读命令 C_RD_NA_1: no available capacity"
    );
    let value = Sample::from_integer(1);
    match coordinator.command(
        RuntimeCommand::SetCollectValue { ioa: 7, type_id: "M_SP_NA_1".to_owned(), value },
        5,
    ) {
        Action::OfferCollect { command: CollectCommand::SetPointValue { ioa, .. }, offer } => {
            assert_eq!(ioa, 7);
            coordinator.offered(&offer, Some("full".to_owned()), 6);
        },
        _ => panic!("expected a value"),
    }
    assert_eq!(last_system(&coordinator).1, "采集点值修改队列拒绝 M_SP_NA_1/IOA=7: full");
    match coordinator.command(RuntimeCommand::SetFaultPolicy(Some(FaultPolicy::Silent)), 7) {
        Action::OfferCollect {
            command: CollectCommand::SetFaultPolicy(policy),
            offer: Offer::Policy,
        } => assert_eq!(policy, Some(FaultPolicy::Silent)),
        _ => panic!("expected a policy"),
    }
    coordinator.offered(&Offer::Policy, Some("full".to_owned()), 8);
    assert_eq!(last_system(&coordinator).1, "响应策略队列拒绝请求: full");
    coordinator.command(RuntimeCommand::ClearLogs(Side::System), 9);
    assert!(coordinator.snapshot.system_logs.is_empty());
    assert_eq!(coordinator.snapshot.collect_logs.len(), 1);
}

#[test]
fn logs_keep_the_latest_entries() {
    let mut logs: VecDeque<LogEntry> = VecDeque::new();
    for index in 0..5 {
        push_log(&mut logs, 3, entry(&format!("{index}")));
    }
    let kept: Vec<&str> = logs.iter().map(|entry| entry.summary.as_str()).collect();
    assert_eq!(kept, vec!["2", "3", "4"]);
    push_log(&mut logs, 1, entry("5"));
    assert_eq!(logs.len(), 1);
}

#[test]
fn present_values_are_kept_in_order() {
    let mut current = vec![point(2, "M_SP_NA_1", "0/分", true)];
    merge_current_values(
        &mut current,
        &vec![
            point(2, "M_DP_NA_1", "2/合", true),
            point(1, "M_ME_NC_1", "1.0", true),
            point(2, "M_SP_TB_1", "1/合", false),
        ],
    );
    let shown: Vec<(u32, &str, &str)> = current
        .iter()
        .map(|row| (row.ioa, row.name.as_str(), row.value.as_deref().unwrap_or("")))
        .collect();
    assert_eq!(
        shown,
        vec![
            (1, "未配置 IOA", "1.0"),
            (2, "测试点", "1/合"),
            (2, "类型不匹配（实际 M_DP_NA_1）", "2/合"),
        ]
    );
}

#[test]
fn reloaded_tables_keep_the_values_of_their_rows() {
    let mut fresh = point(1, "M_SP_NA_1", "x", true);
    fresh.value = None;
    fresh.name = "新名".to_owned();
    let old = vec![point(1, "M_SP_TB_1", "1/合", false)];
    let kept = preserve_values(&vec![fresh.copy()], &old);
    assert_eq!(kept[0].value, None);
    let kept = preserve_current_values(&vec![fresh.copy()], &old);
    assert_eq!(kept[0].value.as_deref(), Some("1/合"));
    assert_eq!(kept[0].name, "新名");
    assert_eq!(kept[0].type_id, "M_SP_NA_1");

    let config = config();
    let mut snapshot = initial_snapshot(&config);
    snapshot.dispatch_current_general = old;
    reduce(
        &mut snapshot,
        RuntimeEvent::DispatchExpectedReloaded {
            general: vec![fresh],
            energy: Vec::new(),
            points: Vec::<DispatchPointConfig>::new(),
        },
        10,
    );
    assert_eq!(snapshot.dispatch_general[0].value, None);
    assert_eq!(snapshot.dispatch_current_general[0].value.as_deref(), Some("1/合"));
}

#[test]
fn reports_change_what_they_are_about() {
    let config = config();
    let mut snapshot = initial_snapshot(&config);
    assert_eq!(snapshot.collect_connection.endpoint, "127.0.0.1:2405");
    assert_eq!(snapshot.dispatch_connection.phase, ConnectionPhase::Disconnected);
    reduce(&mut snapshot, RuntimeEvent::Log(entry("a")), 10);
    assert_eq!(snapshot.system_logs.len(), 1);
    reduce(
        &mut snapshot,
        RuntimeEvent::RoundPending { kind: SnapshotKind::Energy, pending: true },
        10,
    );
    assert!(snapshot.energy_pending && !snapshot.general_pending);
    reduce(&mut snapshot, RuntimeEvent::FaultPolicyChanged(Some(FaultPolicy::Silent)), 10);
    assert_eq!(snapshot.fault_policy, Some(FaultPolicy::Silent));
    reduce(
        &mut snapshot,
        RuntimeEvent::DispatchSnapshot {
            kind: SnapshotKind::Energy,
            values: vec![point(1, "M_IT_NA_1", "5", true)],
        },
        10,
    );
    assert_eq!(snapshot.dispatch_energy.len(), 1);
    assert!(snapshot.dispatch_general.is_empty());
    reduce(
        &mut snapshot,
        RuntimeEvent::CollectValues(vec![point(1, "M_IT_NA_1", "5", true)]),
        10,
    );
    let copy = snapshot.copy();
    assert_eq!(copy.collect_values.len(), 1);
    assert_eq!(copy.system_logs[0].summary, "a");
}

#[test]
fn values_of_an_unconfigured_address_are_no_mismatches() {
    let values = vec![
        point(5, "M_SP_NA_1", "1/合", false),
        point(5, "M_DP_NA_1", "2/合", false),
    ];
    let mut current = Vec::new();
    merge_current_values(&mut current, &values);
    let shown: Vec<(u32, &str, &str, bool)> = current
        .iter()
        .map(|row| (row.ioa, row.type_id.as_str(), row.name.as_str(), row.configured))
        .collect();
    assert_eq!(shown.len(), 2);
    assert!(shown.contains(&(5, "M_SP_NA_1", "未配置 IOA", false)));
    assert!(shown.contains(&(5, "M_DP_NA_1", "未配置 IOA", false)));
}

#[test]
fn merging_the_same_values_again_changes_nothing() {
    let values = vec![
        point(9, "M_ME_NC_1", "1.0", false),
        point(2, "M_DP_NA_1", "2/合", false),
        point(2, "M_SP_TB_1", "1/合", false),
    ];
    let mut current = vec![point(2, "M_SP_NA_1", "0/分", true)];
    merge_current_values(&mut current, &values);
    let once = format!("{current:?}");
    assert_eq!(current.len(), 3);
    merge_current_values(&mut current, &values);
    assert_eq!(format!("{current:?}"), once);
}
