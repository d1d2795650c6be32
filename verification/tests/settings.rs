//! Settings, point tables and the start of the program.

use agcavc104test::config::{
    endpoint, load_collect_points, load_dispatch_points, non_empty, non_zero_port, positive,
    validate_argument_count, validate_collect_range, validate_common_address,
    validate_dispatch_default, validate_protocol, validate_settings, CollectPointRow,
    CollectSettings, DispatchPointConfig, DispatchSettings, MainSettings, PointPaths,
    ProtocolSettings, UiSettings,
};
use agcavc104test::model::{
    AddressingMode, CollectPointKind, ControlKind, ControlPhase, DefaultResponseMode,
    DispatchPointKind, DispatchPointPurpose, FaultPolicy, PointPurpose,
};
use agcavc104test::number::{Real, Sample};
use agcavc104test::text::{ascii_lowercase, ascii_uppercase, is_blank};

fn number(value: f64) -> Real {
    Real { double: value.to_bits(), single: (value as f32).to_bits() }
}

fn sample(value: f64) -> Sample {
    Sample {
        value: number(value),
        plain: format!("{value}"),
        rounded: format!("{value:.0}"),
        fixed: format!("{value:.3}"),
    }
}

fn settings() -> MainSettings {
    MainSettings {
        protocol: ProtocolSettings::default(),
        collect: CollectSettings::default(),
        dispatch: DispatchSettings::default(),
        ui: UiSettings::default(),
        points: PointPaths::default(),
    }
}

fn row(name: &str, ioa: u32, kind: CollectPointKind, initial: f64) -> CollectPointRow {
    CollectPointRow {
        name: name.to_owned(),
        ioa,
        kind,
        purpose: PointPurpose::Data,
        control: None,
        group: 1,
        initial: sample(initial),
        min: None,
        max: None,
        step: None,
        soe: false,
        quality: "good".to_owned(),
        addressing: AddressingMode::Individual,
        response: DefaultResponseMode::Success,
        response_delay_ms: 0,
    }
}

fn target(
    name: &str,
    ioa: u32,
    kind: DispatchPointKind,
    purpose: DispatchPointPurpose,
) -> DispatchPointConfig {
    DispatchPointConfig {
        name: name.to_owned(),
        ioa,
        kind,
        purpose,
        min: None,
        max: None,
        default_value: None,
    }
}

#[test]
fn startup_accepts_only_the_program_name() {
    assert!(validate_argument_count(1).is_ok());
    assert!(validate_argument_count(2).is_err());
    assert!(validate_argument_count(0).is_err());
}

#[test]
fn fault_popup_has_separate_force_success_and_clear_choices() {
    assert!(FaultPolicy::ALL.contains(&FaultPolicy::Success));
    assert!(FaultPolicy::Success.matches(ControlPhase::Select));
    assert!(FaultPolicy::Success.matches(ControlPhase::Execute));
}

#[test]
fn protocol_timer_order_and_common_addresses_are_validated() {
    let mut protocol = ProtocolSettings::default();
    protocol.t2_ms = protocol.t1_ms;
    assert!(validate_protocol(&protocol).is_err());
    assert!(validate_common_address("CA", 0).is_err());
    assert!(validate_common_address("CA", u16::MAX).is_err());
}

#[test]
fn point_value_boundaries_reject_invalid_discrete_and_setpoint_defaults() {
    assert!(validate_collect_range(
        "single",
        CollectPointKind::SinglePoint,
        number(2.0),
        number(0.0),
        number(2.0),
        number(1.0),
    )
    .is_err());
    assert!(
        validate_dispatch_default("single", DispatchPointKind::SingleControl, number(2.0)).is_err()
    );
    assert!(validate_dispatch_default(
        "normalized",
        DispatchPointKind::NormalizedSetpoint,
        number(32_768.0),
    )
    .is_err());
}

#[test]
fn default_settings_are_accepted() {
    assert_eq!(validate_settings(&settings()), Ok(()));
    assert_eq!(validate_protocol(&ProtocolSettings::default()), Ok(()));
    assert_eq!(endpoint("127.0.0.1", 2405), "127.0.0.1:2405");
}

#[test]
fn timers_out_of_order_and_windows_are_refused() {
    let mut protocol = ProtocolSettings::default();
    protocol.t3_ms = protocol.t1_ms;
    assert!(validate_protocol(&protocol).is_err());
    let mut protocol = ProtocolSettings::default();
    protocol.t0_ms = 0;
    assert!(validate_protocol(&protocol).is_err());
    let mut protocol = ProtocolSettings::default();
    protocol.k = 0;
    let refusal = validate_protocol(&protocol).unwrap_err();
    assert!(refusal.contains("Protocol k must be > 0"), "{refusal}");
    let mut protocol = ProtocolSettings::default();
    protocol.w = 9;
    let refusal = validate_protocol(&protocol).unwrap_err();
    assert!(refusal.contains("for k = 12"), "{refusal}");
}

#[test]
fn fields_of_the_settings_are_checked_one_by_one() {
    assert_eq!(non_empty("名称", " \t"), Err("名称 不能为空".to_owned()));
    assert_eq!(non_empty("名称", " x "), Ok(()));
    assert_eq!(non_zero_port("端口", 0), Err("端口 不能为 0".to_owned()));
    assert_eq!(non_zero_port("端口", 1), Ok(()));
    assert!(positive("间隔", 0).is_err());
    assert_eq!(positive("间隔", 1), Ok(()));
    assert_eq!(validate_common_address("CA", 65_534), Ok(65_534));

    let mut broken = settings();
    broken.collect.bind_host = "  ".to_owned();
    assert!(validate_settings(&broken).is_err());
    let mut broken = settings();
    broken.dispatch.target_port = 0;
    assert!(validate_settings(&broken).is_err());
    let mut broken = settings();
    broken.ui.log_capacity = 0;
    assert!(validate_settings(&broken).is_err());
}

#[test]
fn collect_rows_get_the_default_ranges_of_their_kinds() {
    let rows = vec![
        row("float", 1, CollectPointKind::Float, 0.5),
        row("single", 2, CollectPointKind::SinglePoint, 1.0),
    ];
    let points = load_collect_points(&rows).expect("points");
    assert_eq!(points.len(), 2);
    assert_eq!(points[0].ioa, 1);
    assert_eq!(points[1].kind, CollectPointKind::SinglePoint);
    assert_eq!(points[1].min.value, number(0.0));
    assert_eq!(points[1].max.value, number(1.0));
    assert_eq!(points[1].group, 1);
    assert_eq!(points[0].step, number(0.5));
    assert_eq!(points[0].min.value, number(-1_000_000.0));
    let rows = vec![
        row("counter", 3, CollectPointKind::Counter, 7.0),
        row("normalized", 4, CollectPointKind::Normalized, 7.0),
    ];
    let points = load_collect_points(&rows).expect("points");
    for (point, min, max) in [
        (&points[0], f64::from(i32::MIN), f64::from(i32::MAX)),
        (&points[1], -32_768.0, 32_767.0),
    ] {
        for (bound, expected) in [(&point.min, sample(min)), (&point.max, sample(max))] {
            assert_eq!(bound.value, expected.value);
            assert_eq!(bound.plain, expected.plain);
            assert_eq!(bound.rounded, expected.rounded);
            assert_eq!(bound.fixed, expected.fixed);
        }
    }
}

#[test]
fn repeated_or_unsound_collect_rows_are_refused() {
    assert_eq!(
        load_collect_points(&Vec::new()).unwrap_err(),
        "采集点配置至少需要一个 [[points]]"
    );
    let repeated = vec![
        row("a", 7, CollectPointKind::Float, 0.0),
        row("b", 7, CollectPointKind::Float, 0.0),
    ];
    assert!(load_collect_points(&repeated).is_err());
    let other_type = vec![
        row("a", 7, CollectPointKind::Float, 0.0),
        row("b", 7, CollectPointKind::Counter, 0.0),
    ];
    assert!(load_collect_points(&other_type).is_ok());
    let mut nameless = row(" ", 7, CollectPointKind::Float, 0.0);
    assert!(load_collect_points(&vec![nameless]).is_err());
    nameless = row("a", 0x100_0000, CollectPointKind::Float, 0.0);
    assert!(load_collect_points(&vec![nameless]).is_err());
    let mut group = row("a", 7, CollectPointKind::Counter, 0.0);
    group.group = 5;
    assert!(load_collect_points(&vec![group]).is_err());
    let mut quality = row("a", 7, CollectPointKind::Float, 0.0);
    quality.quality = "Blocked".to_owned();
    assert_eq!(
        load_collect_points(&vec![quality]).expect("points")[0].quality,
        "blocked"
    );
    let mut quality = row("a", 7, CollectPointKind::Float, 0.0);
    quality.quality = "perfect".to_owned();
    assert!(load_collect_points(&vec![quality]).is_err());
    let infinite = row("a", 7, CollectPointKind::Float, f64::INFINITY);
    assert!(load_collect_points(&vec![infinite]).is_err());
    let fraction = row("a", 7, CollectPointKind::Normalized, 0.5);
    assert!(load_collect_points(&vec![fraction]).is_err());
}

#[test]
fn control_targets_infer_their_control_and_have_addresses_of_their_own() {
    let mut first = row("a", 7, CollectPointKind::SinglePoint, 0.0);
    first.purpose = PointPurpose::ControlTarget;
    let mut second = row("b", 7, CollectPointKind::Float, 0.0);
    second.purpose = PointPurpose::Both;
    assert!(load_collect_points(&vec![first.clone_row(), second]).is_err());
    let points = load_collect_points(&vec![first]).expect("target");
    assert_eq!(points[0].control, Some(ControlKind::Single));
    let mut counter = row("c", 8, CollectPointKind::Counter, 0.0);
    counter.purpose = PointPurpose::ControlTarget;
    assert!(load_collect_points(&vec![counter]).is_err());
}

trait CloneRow {
    fn clone_row(&self) -> CollectPointRow;
}

impl CloneRow for CollectPointRow {
    fn clone_row(&self) -> CollectPointRow {
        CollectPointRow {
            name: self.name.clone(),
            ioa: self.ioa,
            kind: self.kind,
            purpose: self.purpose,
            control: self.control,
            group: self.group,
            initial: self.initial.clone(),
            min: self.min.clone(),
            max: self.max.clone(),
            step: self.step,
            soe: self.soe,
            quality: self.quality.clone(),
            addressing: self.addressing,
            response: self.response,
            response_delay_ms: self.response_delay_ms,
        }
    }
}

#[test]
fn dispatch_rows_fit_their_purpose_and_are_not_repeated() {
    let expected = target(
        "yc",
        16_385,
        DispatchPointKind::Float,
        DispatchPointPurpose::ExpectedGeneral,
    );
    let command = target(
        "yk",
        24_577,
        DispatchPointKind::SingleControl,
        DispatchPointPurpose::Command,
    );
    let points = load_dispatch_points(vec![expected.copy(), command.copy()]).expect("points");
    assert_eq!(points.len(), 2);
    assert_eq!(points[1].name, "yk");
    assert!(load_dispatch_points(vec![command.copy(), command.copy()]).is_err());
    let wrong = target(
        "x",
        1,
        DispatchPointKind::Float,
        DispatchPointPurpose::Command,
    );
    assert!(load_dispatch_points(vec![wrong]).is_err());
    let wrong = target(
        "x",
        1,
        DispatchPointKind::SingleControl,
        DispatchPointPurpose::ExpectedGeneral,
    );
    assert!(load_dispatch_points(vec![wrong]).is_err());
    let mut limits = command.copy();
    limits.min = Some(sample(1.0));
    limits.max = Some(sample(0.0));
    assert!(load_dispatch_points(vec![limits]).is_err());
    let mut limits = command.copy();
    limits.min = Some(sample(f64::NEG_INFINITY));
    assert_eq!(
        load_dispatch_points(vec![limits]).unwrap_err(),
        "调度点 #1 (yk) 的 min/max 非法"
    );
    let mut limits = command.copy();
    limits.max = Some(sample(f64::NAN));
    assert!(load_dispatch_points(vec![limits]).is_err());
    let mut limits = command.copy();
    limits.default_value = Some(sample(f64::NAN));
    assert!(load_dispatch_points(vec![limits]).is_err());
    let mut step = target(
        "step",
        2,
        DispatchPointKind::RegulatingStep,
        DispatchPointPurpose::Command,
    );
    step.default_value = Some(sample(0.0));
    assert!(load_dispatch_points(vec![step.copy()]).is_err());
    step.default_value = Some(sample(-1.0));
    assert!(load_dispatch_points(vec![step]).is_ok());
}

#[test]
fn characters_are_told_apart_as_the_standard_library_does() {
    for code in 0..0x3100u32 {
        let Some(c) = char::from_u32(code) else {
            continue;
        };
        let text = format!("{c}x{c}");
        assert_eq!(is_blank(&format!("{c}")), c.is_whitespace(), "{code:x}");
        assert_eq!(ascii_lowercase(&text), text.to_ascii_lowercase(), "{code:x}");
        assert_eq!(ascii_uppercase(&text), text.to_ascii_uppercase(), "{code:x}");
    }
}
