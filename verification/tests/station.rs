//! The simulated points and their reports.

use agcavc104test::config::CollectPointConfig;
use agcavc104test::model::{
    AddressingMode, CollectPointKind, ControlKind, DefaultResponseMode, PointPurpose, UploadKind,
};
use agcavc104test::number::{Real, Sample};
use agcavc104test::protocol::element::{Dpi, Element, InformationObject, Spi, TypeId};
use agcavc104test::protocol::message::{Asdu, InformationObjects};
use agcavc104test::protocol::station::{
    addressing_chunks, all_collect_kinds, collect_type_id, frame_object_limit, upload_kind,
    ControlRequest, ReportHeader, SoeKind, Station, MAX_ASDU_BYTES,
};

fn sample(value: f64) -> Sample {
    Sample {
        value: Real { double: value.to_bits(), single: (value as f32).to_bits() },
        plain: format!("{value}"),
        rounded: format!("{value:.0}"),
        fixed: format!("{value:.3}"),
    }
}

fn point(ioa: u32, kind: CollectPointKind, initial: f64, min: f64, max: f64) -> CollectPointConfig {
    CollectPointConfig {
        name: format!("点{ioa}"),
        ioa,
        kind,
        purpose: PointPurpose::Data,
        control: None,
        group: 1,
        initial: sample(initial),
        min: sample(min),
        max: sample(max),
        step: Real { double: 1f64.to_bits(), single: 1f32.to_bits() },
        soe: false,
        quality: "good".to_owned(),
        addressing: AddressingMode::Individual,
        response: DefaultResponseMode::Success,
        response_delay_ms: 0,
    }
}

fn control(
    ioa: u32,
    kind: CollectPointKind,
    control: ControlKind,
    min: f64,
    max: f64,
) -> CollectPointConfig {
    CollectPointConfig {
        purpose: PointPurpose::ControlTarget,
        control: Some(control),
        ..point(ioa, kind, 0.0, min, max)
    }
}

fn points() -> Vec<CollectPointConfig> {
    let mut soe = point(101, CollectPointKind::SinglePoint, 0.0, 0.0, 1.0);
    soe.soe = true;
    vec![
        soe,
        point(102, CollectPointKind::DoublePoint, 1.0, 0.0, 1.0),
        point(103, CollectPointKind::Normalized, 5.0, -100.0, 100.0),
        point(104, CollectPointKind::NormalizedNoQuality, -5.0, -100.0, 100.0),
        point(16_385, CollectPointKind::Float, 0.0, -100.0, 100.0),
        point(16_386, CollectPointKind::Float, 0.0, -100.0, 100.0),
        point(106, CollectPointKind::Counter, 40.0, 0.0, 1_000_000.0),
        control(24_577, CollectPointKind::SinglePoint, ControlKind::Single, 0.0, 1.0),
        control(24_578, CollectPointKind::Float, ControlKind::Setpoint, -50.0, 50.0),
    ]
}

/// One sample for each point, all different.
fn drawn(station: &Station) -> Vec<Sample> {
    (0..station.points.len()).map(|index| sample(index as f64 + 0.25)).collect()
}

fn value(station: &Station, ioa: u32) -> f64 {
    let point = station.points.iter().find(|point| point.config.ioa == ioa).expect("point");
    f64::from_bits(point.value.value.double)
}

fn objects(asdu: &Asdu) -> &Vec<InformationObject> {
    match &asdu.information_objects {
        InformationObjects::Known(objects) => objects,
        InformationObjects::Other { .. } => panic!("expected known objects"),
    }
}

#[test]
fn refresh_samples_each_matching_point_independently() {
    let mut station = Station::new(points(), 1);
    let mut rng = fastrand::Rng::with_seed(0x104);
    let samples = drawn(&station);
    station.refresh_with_rng(UploadKind::RefreshAll, &mut rng, &samples, 2);
    let values: Vec<_> = station
        .points
        .iter()
        .filter(|point| point.config.kind == CollectPointKind::Float)
        .map(|point| point.value.value)
        .collect();
    assert!(values.len() > 1, "test requires multiple float points");
    assert!(
        values.iter().skip(1).any(|value| *value != values[0]),
        "all matching points received the same value"
    );
}

#[test]
fn refresh_all_changes_each_data_point_once_and_keeps_control_only_points() {
    let mut station = Station::new(points(), 1);
    let before = station.copy();
    let expected = before
        .points
        .iter()
        .filter(|point| point.config.purpose.includes_data())
        .count();
    let samples = drawn(&station);
    assert_eq!(station.refresh(UploadKind::RefreshAll, &samples, 2), expected);

    for (old, new) in before.points.iter().zip(&station.points) {
        if old.config.purpose.includes_data() {
            assert_ne!(old.value.value, new.value.value, "{} should change", old.config.name);
            assert_eq!(new.updated_ms, 2);
        } else {
            assert_eq!(old.value.value, new.value.value, "{} should stay", old.config.name);
            assert_eq!(new.updated_ms, 1);
        }
    }
    assert_eq!(station.points[6].counter_sequence, 1);

    let frames = station.frames_for_upload(UploadKind::RefreshAll, 1, 0).expect("frames");
    for expected_type in station
        .points
        .iter()
        .filter(|point| point.config.purpose.includes_data())
        .map(|point| point.config.kind.type_id())
    {
        assert!(frames.iter().any(|asdu| format!("{:?}", asdu.type_id) == expected_type));
    }
}

#[test]
fn current_values_upload_generates_all_data_types_without_changing_points() {
    let mut station = Station::new(points(), 1);
    let before = station.views();
    let expected = station
        .points
        .iter()
        .filter(|point| point.config.purpose.includes_data())
        .count();
    let samples = drawn(&station);
    assert_eq!(station.refresh(UploadKind::CurrentValues, &samples, 2), expected);
    assert_eq!(
        station
            .views()
            .iter()
            .map(|point| (point.value.clone(), point.updated_ms))
            .collect::<Vec<_>>(),
        before
            .iter()
            .map(|point| (point.value.clone(), point.updated_ms))
            .collect::<Vec<_>>()
    );
    let frames = station.frames_for_upload(UploadKind::CurrentValues, 1, 0).expect("current frames");
    assert!(!frames.is_empty());
}

#[test]
fn manual_point_value_change_validates_type_and_range() {
    let mut station = Station::new(points(), 1);
    let float_ioa = 16_385;
    let single_ioa = 101;
    assert_eq!(
        station.set_value(float_ioa, "M_ME_NC_1", sample(91.25), 2).expect("float value"),
        "91.250"
    );
    assert!(station.set_value(single_ioa, "M_SP_NA_1", sample(0.5), 2).is_err());
    assert!(station.set_value(float_ioa, "M_ME_NA_1", sample(100.5), 2).is_err());
    assert!(station.set_value(9_999_999, "M_SP_NA_1", sample(1.0), 2).is_err());
    assert_eq!(value(&station, float_ioa), 91.25);
    assert!(station.set_value(float_ioa, "M_ME_NC_1", sample(100.5), 2).is_err());
    assert!(station.set_value(float_ioa, "M_ME_NC_1", sample(f64::NAN), 2).is_err());
    assert_eq!(value(&station, float_ioa), 91.25);
}

#[test]
fn soe_refresh_uses_the_same_discrete_state() {
    let mut station = Station::new(points(), 1);
    let ioa = 101;
    let samples = drawn(&station);
    station.refresh(UploadKind::SingleSoe, &samples, 2);
    let expected_spi = if value(&station, ioa) == 0.0 { Spi::Off } else { Spi::On };
    let frames = station.frames_for_upload(UploadKind::SingleSoe, 1, 0).expect("SOE frames");
    match objects(&frames[0])[0] {
        InformationObject { address, element: Element::SinglePointTime { siq, .. } } => {
            assert_eq!(address, ioa);
            assert_eq!(siq.spi, expected_spi);
        },
        _ => panic!("expected M_SP_TB_1"),
    }
}

#[test]
fn frame_limits_use_the_real_asdu_object_size() {
    for (type_id, size) in [
        (TypeId::M_SP_NA_1, iec104::types_id::TypeId::M_SP_NA_1.size()),
        (TypeId::M_ME_NC_1, iec104::types_id::TypeId::M_ME_NC_1.size()),
        (TypeId::M_SP_TB_1, iec104::types_id::TypeId::M_SP_TB_1.size()),
    ] {
        for sequence in [false, true] {
            let limit = frame_object_limit(type_id, sequence);
            let encoded =
                6 + usize::from(sequence) * 3 + limit * (size + if sequence { 0 } else { 3 });
            assert!(encoded <= MAX_ASDU_BYTES);
            if limit < 127 {
                let next = 6
                    + usize::from(sequence) * 3
                    + (limit + 1) * (size + if sequence { 0 } else { 3 });
                assert!(next > MAX_ASDU_BYTES);
            }
        }
    }
    assert!(frame_object_limit(TypeId::M_SP_NA_1, false) > 20);
}

#[test]
fn neighbouring_points_share_a_unit_with_one_address() {
    let mut table: Vec<CollectPointConfig> = (200..206)
        .map(|ioa| point(ioa, CollectPointKind::DoublePoint, 1.0, 0.0, 1.0))
        .collect();
    for config in &mut table {
        config.addressing = AddressingMode::Auto;
    }
    table.push(point(210, CollectPointKind::DoublePoint, 0.0, 0.0, 1.0));
    let mut apart = point(220, CollectPointKind::DoublePoint, 0.0, 0.0, 1.0);
    apart.addressing = AddressingMode::Sequence;
    table.push(apart);
    let station = Station::new(table, 1);
    let chunks = addressing_chunks(&station.points, TypeId::M_DP_NA_1);
    let shape: Vec<(bool, usize)> =
        chunks.iter().map(|chunk| (chunk.sequence, chunk.points.len())).collect();
    assert_eq!(shape.iter().map(|(_, count)| count).sum::<usize>(), 8);
    assert!(shape.contains(&(true, 6)));
    let header = ReportHeader { cot: 20, common_address: 1, originator_address: 7, test: true };
    let frames = station.general_frames(None, header).expect("frames");
    assert!(frames.iter().all(|unit| unit.cot == 20 && unit.originator_address == 7 && unit.test));
    let reported: usize = frames.iter().map(|unit| objects(unit).len()).sum();
    assert_eq!(reported, 8);
    match objects(&frames[0])[0].element {
        Element::DoublePoint { diq } => assert!(matches!(diq.dpi, Dpi::On | Dpi::Off)),
        _ => panic!("expected M_DP_NA_1"),
    }
}

#[test]
fn groups_select_the_points_of_an_interrogation() {
    let mut table = points();
    table[0].group = 2;
    table[6].group = 3;
    let station = Station::new(table, 1);
    let header = ReportHeader { cot: 22, common_address: 1, originator_address: 0, test: false };
    let frames = station.general_frames(Some(2), header).expect("frames");
    assert_eq!(frames.len(), 1);
    assert_eq!(objects(&frames[0])[0].address, 101);
    assert!(station.counter_frames(Some(1), header).expect("frames").is_empty());
    let frames = station.counter_frames(Some(3), header).expect("frames");
    assert_eq!(objects(&frames[0])[0].address, 106);
    assert_eq!(all_collect_kinds().len(), 6);
}

#[test]
fn only_discrete_points_have_time_tagged_types() {
    assert_eq!(
        collect_type_id(CollectPointKind::SinglePoint, Some(SoeKind::Single)),
        Ok(TypeId::M_SP_TB_1)
    );
    assert_eq!(collect_type_id(CollectPointKind::Float, None), Ok(TypeId::M_ME_NC_1));
    assert!(collect_type_id(CollectPointKind::Float, Some(SoeKind::Single)).is_err());
    assert_eq!(upload_kind(UploadKind::Counter), Some(CollectPointKind::Counter));
    assert_eq!(upload_kind(UploadKind::RefreshAll), None);
}

#[test]
fn reconfigured_points_keep_values_that_still_fit() {
    let mut station = Station::new(points(), 1);
    station.set_value(16_385, "M_ME_NC_1", sample(91.25), 2).expect("value");
    station.set_value(16_386, "M_ME_NC_1", sample(91.25), 2).expect("value");
    let mut table = points();
    table[5].max = sample(50.0);
    let fresh = station.reconfigured(table, 9);
    assert_eq!(value(&fresh, 16_385), 91.25);
    assert_eq!(fresh.points[4].updated_ms, 2);
    assert_eq!(value(&fresh, 16_386), 0.0);
    assert_eq!(fresh.points[5].updated_ms, 9);
}

#[test]
fn control_targets_take_values_within_their_ranges() {
    let mut station = Station::new(points(), 1);
    let on = station
        .control_value(24_577, ControlKind::Single, ControlRequest::State(Some(true)), &sample(0.0))
        .expect("state");
    assert_eq!(on.plain, "1");
    assert!(station
        .control_value(24_577, ControlKind::Double, ControlRequest::State(Some(true)), &sample(0.0))
        .is_err());
    assert!(station
        .control_value(24_578, ControlKind::Setpoint, ControlRequest::Setpoint, &sample(50.5))
        .is_err());
    let goal = station
        .control_value(24_578, ControlKind::Setpoint, ControlRequest::Setpoint, &sample(-50.0))
        .expect("set point");
    station.commit_control(24_578, ControlKind::Setpoint, goal, 7).expect("commit");
    assert_eq!(value(&station, 24_578), -50.0);
    assert!(station.commit_control(1, ControlKind::Setpoint, sample(0.0), 7).is_err());
    assert_eq!(station.point(24_578, ControlKind::Setpoint), Some(8));
    assert_eq!(station.point(24_578, ControlKind::Single), None);
}

#[test]
fn soundness_of_a_table_can_be_asked_for() {
    assert!(Station::new(points(), 1).is_sound());
    let mut table = points();
    table[4].min = sample(200.0);
    assert!(!Station::new(table, 1).is_sound());
    let mut table = points();
    table[4].initial = sample(100.5);
    assert!(!Station::new(table, 1).is_sound());
    let mut table = points();
    table[2].max = sample(99.5);
    assert!(!Station::new(table, 1).is_sound());
}

#[test]
fn refreshed_values_stay_in_the_ranges_of_their_points() {
    let mut table = points();
    table[1].min = sample(1.0);
    let mut station = Station::new(table, 1);
    for (number, expected) in [(1000.0, 100.0), (-1000.0, -100.0), (99.5, 99.5)] {
        let samples: Vec<Sample> = station.points.iter().map(|_| sample(number)).collect();
        station.refresh(UploadKind::RefreshAll, &samples, 2);
        assert_eq!(value(&station, 16_385), expected);
        assert_eq!(value(&station, 102), 1.0);
        assert!(station.is_sound());
    }
    let samples: Vec<Sample> = station.points.iter().map(|_| sample(1000.0)).collect();
    station.refresh(UploadKind::Float, &samples, 3);
    assert_eq!(value(&station, 16_385), 100.0);
    station.refresh(UploadKind::Float, &samples, 4);
    assert_eq!(value(&station, 16_385), -100.0);
}

#[test]
fn whole_steps_are_added_up() {
    let mut table = points();
    table.push(CollectPointConfig {
        initial: sample(7.0),
        step: Real { double: 3f64.to_bits(), single: 3f32.to_bits() },
        ..control(24_579, CollectPointKind::Float, ControlKind::Regulating, -50.0, 50.0)
    });
    let mut station = Station::new(table, 1);
    let step = |station: &Station, up: bool| {
        let request = ControlRequest::Step(Some(up));
        station.control_value(24_579, ControlKind::Regulating, request, &sample(0.125))
    };
    let up = step(&station, true).expect("up");
    assert_eq!((up.plain.as_str(), up.fixed.as_str()), ("10", "10.000"));
    assert_eq!(up.value, sample(10.0).value);
    station.commit_control(24_579, ControlKind::Regulating, up, 2).expect("commit");
    assert_eq!(step(&station, false).expect("down").value, sample(7.0).value);
    station.commit_control(24_579, ControlKind::Regulating, sample(0.5), 3).expect("commit");
    assert_eq!(step(&station, true).expect("computed").plain, "0.125");
}

#[test]
fn individual_points_are_grouped_for_any_type() {
    let station = Station::new(points(), 1);
    let scaled = addressing_chunks(&station.points, TypeId::Other(11));
    assert_eq!(scaled.len(), 1);
    assert_eq!(scaled[0].points.len(), 9);
    let custom = addressing_chunks(&station.points, TypeId::Other(200));
    assert!(custom.iter().all(|chunk| !chunk.sequence));
}
