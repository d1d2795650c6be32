//! Requests, reports and the texts about them.

use agcavc104test::model::{ControlPhase, DispatchAction, DispatchRequest};
use agcavc104test::number::Real;
use agcavc104test::protocol::asdu::{
    asdu_details, asdu_summary, build_dispatch_request, confirmation, cot_label,
    counter_interrogation_cot, cp56_from_unix_millis, dpi_label, interrogation_cot,
    is_counter_data_cot, is_general_data_cot, make_asdu, protocol_meta, qoi_group, rows_from_asdu,
    spi_label, type_label, validate_dispatch_request_fields,
};
use agcavc104test::protocol::element::{
    Dpi, Element, InformationObject, Qds, Qualifier, Rcs, SelectExecute, SeqQd, Siq, Spi, TypeId,
};
use agcavc104test::protocol::message::{
    Asdu, InformationObjects, COT_ACTIVATION_CONFIRMATION, COT_INTERROGATION_GENERAL,
    COT_SPONTANEOUS,
};
use chrono::{DateTime, Datelike, Local, Timelike, Utc};

fn number(value: f64) -> Real {
    Real { double: value.to_bits(), single: (value as f32).to_bits() }
}

fn request(action: DispatchAction) -> DispatchRequest {
    DispatchRequest {
        action,
        ioa: 123,
        value: number(1.0),
        phase: ControlPhase::Execute,
        common_address: 1,
        originator_address: 7,
        qualifier: 0,
        test: false,
        qoi: 20,
        qcc_request: 5,
        qcc_freeze: 0,
        repeat: 1,
        interval_ms: 100,
        clock_time_ms: None,
    }
}

fn built(request: &DispatchRequest) -> Asdu {
    build_dispatch_request(request).expect("valid request").expect("application ASDU")
}

fn objects(asdu: &Asdu) -> &Vec<InformationObject> {
    match &asdu.information_objects {
        InformationObjects::Known(objects) => objects,
        InformationObjects::Other { .. } => panic!("expected known objects"),
    }
}

fn single(address: u32, siq: Siq) -> InformationObject {
    InformationObject { address, element: Element::SinglePoint { siq } }
}

const GOOD: Qds = Qds { iv: false, nt: false, sb: false, bl: false, ov: false };

#[test]
fn all_dispatch_application_actions_build_expected_type_ids() {
    let cases = [
        (DispatchAction::GeneralInterrogation, TypeId::C_IC_NA_1),
        (DispatchAction::CounterInterrogation, TypeId::C_CI_NA_1),
        (DispatchAction::ClockSync, TypeId::C_CS_NA_1),
        (DispatchAction::Read, TypeId::C_RD_NA_1),
        (DispatchAction::SingleControl, TypeId::C_SC_NA_1),
        (DispatchAction::DoubleControl, TypeId::C_DC_NA_1),
        (DispatchAction::RegulatingStep, TypeId::C_RC_NA_1),
        (DispatchAction::NormalizedSetpoint, TypeId::C_SE_NA_1),
        (DispatchAction::ScaledSetpoint, TypeId::C_SE_NB_1),
        (DispatchAction::FloatSetpoint, TypeId::C_SE_NC_1),
    ];
    for (action, type_id) in cases {
        let asdu = built(&request(action));
        assert_eq!(asdu.type_id, type_id);
        assert_eq!(asdu.address_field, 1);
        assert_eq!(asdu.originator_address, 7);
    }
}

#[test]
fn clock_sync_can_use_an_explicit_unix_millisecond_value() {
    let mut request = request(DispatchAction::ClockSync);
    request.clock_time_ms = Some(1_767_225_600_123);
    let asdu = built(&request);
    let time = match objects(&asdu)[0].element {
        Element::ClockSync { time } => time,
        _ => panic!("expected C_CS_NA_1"),
    };
    let expected = DateTime::<Utc>::from_timestamp_millis(1_767_225_600_123)
        .expect("timestamp")
        .with_timezone(&Local);
    assert_eq!(time.year, (expected.year() - 2000) as u8);
    assert_eq!(time.month, expected.month() as u8);
    assert_eq!(time.day, expected.day() as u8);
    assert_eq!(time.hour, expected.hour() as u8);
    assert_eq!(time.ms, 123);
}

#[test]
fn protocol_metadata_contains_direct_fields_and_ioas() {
    let asdu = built(&request(DispatchAction::SingleControl));
    let meta = protocol_meta(&asdu);
    assert_eq!(meta.type_id, "C_SC_NA_1");
    assert_eq!(meta.common_address, 1);
    assert_eq!(meta.originator_address, 7);
    assert_eq!(meta.ioas, vec![123]);
}

#[test]
fn double_control_ui_zero_one_maps_to_iec_off_on_states() {
    let mut on = request(DispatchAction::DoubleControl);
    on.value = number(1.0);
    let asdu = built(&on);
    match objects(&asdu)[0].element {
        Element::DoubleCommand { dcs, .. } => assert_eq!(dcs, Dpi::On),
        _ => panic!("expected C_DC_NA_1"),
    }
    let mut off = request(DispatchAction::DoubleControl);
    off.value = number(0.0);
    let asdu = built(&off);
    match objects(&asdu)[0].element {
        Element::DoubleCommand { dcs, .. } => assert_eq!(dcs, Dpi::Off),
        _ => panic!("expected C_DC_NA_1"),
    }
}

#[test]
fn dispatch_rows_preserve_quality_bits() {
    let asdu = make_asdu(
        TypeId::M_SP_NA_1,
        COT_INTERROGATION_GENERAL,
        1,
        0,
        false,
        InformationObjects::Known(vec![single(
            9,
            Siq { iv: true, nt: false, sb: true, bl: false, spi: Spi::On },
        )]),
    );
    let rows = rows_from_asdu(&asdu, &Vec::new());
    assert_eq!(rows[0].type_id, "M_SP_NA_1");
    assert_eq!(rows[0].quality, "IV|SB");
}

#[test]
fn request_builder_rejects_fields_that_cannot_be_encoded_losslessly() {
    let mut control = request(DispatchAction::SingleControl);
    control.qualifier = 32;
    assert!(build_dispatch_request(&control).is_err());

    let mut general = request(DispatchAction::GeneralInterrogation);
    general.qoi = 19;
    assert!(build_dispatch_request(&general).is_err());

    let mut counter = request(DispatchAction::CounterInterrogation);
    counter.qcc_freeze = 4;
    assert!(build_dispatch_request(&counter).is_err());
}

#[test]
fn every_field_has_its_refusal() {
    let mut broken = request(DispatchAction::Read);
    broken.common_address = 0;
    assert_eq!(validate_dispatch_request_fields(&broken).unwrap_err(), "CA 不能为 0");
    broken.action = DispatchAction::StartDt;
    assert_eq!(validate_dispatch_request_fields(&broken), Ok(()));
    let mut broken = request(DispatchAction::Read);
    broken.ioa = 0x100_0000;
    assert_eq!(
        validate_dispatch_request_fields(&broken).unwrap_err(),
        "IOA=16777216 超出三字节范围"
    );
    let mut broken = request(DispatchAction::CounterInterrogation);
    broken.qcc_request = 0;
    assert_eq!(
        validate_dispatch_request_fields(&broken).unwrap_err(),
        "QCC 请求组必须在 1..=5"
    );
    let mut broken = request(DispatchAction::FloatSetpoint);
    broken.qualifier = 128;
    assert_eq!(
        validate_dispatch_request_fields(&broken).unwrap_err(),
        "限定词必须在 0..=127"
    );
}

#[test]
fn values_that_a_command_cannot_carry_are_refused() {
    let mut command = request(DispatchAction::SingleControl);
    command.value = number(2.0);
    assert_eq!(build_dispatch_request(&command).unwrap_err(), "单点遥控值只能为 0 或 1");
    let mut command = request(DispatchAction::RegulatingStep);
    command.value = number(0.5);
    assert!(build_dispatch_request(&command).is_err());
    command.value = number(-1.0);
    match objects(&built(&command))[0].element {
        Element::RegulatingCommand { rcs, .. } => assert_eq!(rcs, Rcs::Decrement),
        _ => panic!("expected C_RC_NA_1"),
    }
    command.value = number(0.0);
    match objects(&built(&command))[0].element {
        Element::RegulatingCommand { rcs, .. } => assert_eq!(rcs, Rcs::Unset),
        _ => panic!("expected C_RC_NA_1"),
    }
    let mut command = request(DispatchAction::NormalizedSetpoint);
    command.value = number(32_768.0);
    assert!(build_dispatch_request(&command).is_err());
    command.value = number(-32_768.0);
    match objects(&built(&command))[0].element {
        Element::NormalizedSetpoint { nva, .. } => assert_eq!(nva, -32_768),
        _ => panic!("expected C_SE_NA_1"),
    }
    let mut command = request(DispatchAction::FloatSetpoint);
    command.value = number(1e39);
    assert_eq!(build_dispatch_request(&command).unwrap_err(), "短浮点遥调值必须是有限 f32");
    command.value = number(f64::NAN);
    assert!(build_dispatch_request(&command).is_err());
    command.value = number(-12.5);
    command.phase = ControlPhase::Select;
    command.qualifier = 127;
    match objects(&built(&command))[0].element {
        Element::FloatSetpoint { bits, qos } => {
            assert_eq!(f32::from_bits(bits), -12.5);
            assert_eq!(qos, Qualifier { se: SelectExecute::Select, value: 127 });
        },
        _ => panic!("expected C_SE_NC_1"),
    }
}

#[test]
fn times_outside_the_calendar_are_refused() {
    assert_eq!(
        cp56_from_unix_millis(u64::MAX).unwrap_err(),
        "Unix 毫秒超出 i64 范围: 18446744073709551615"
    );
    assert_eq!(
        cp56_from_unix_millis(i64::MAX as u64).unwrap_err(),
        "Unix 毫秒无法转换为时间: 9223372036854775807"
    );
    let refusal = cp56_from_unix_millis(0).unwrap_err();
    assert!(refusal.contains("CP56Time2a 年份必须在 2000..=2099"), "{refusal}");
}

#[test]
fn confirmations_repeat_the_request() {
    let asdu = built(&request(DispatchAction::SingleControl));
    let answer = confirmation(&asdu, COT_ACTIVATION_CONFIRMATION, true, 9);
    assert_eq!(answer.type_id, TypeId::C_SC_NA_1);
    assert_eq!(answer.cot, COT_ACTIVATION_CONFIRMATION);
    assert_eq!(answer.address_field, 9);
    assert_eq!(answer.originator_address, 7);
    assert!(answer.negative);
    assert_eq!(objects(&answer), objects(&asdu));
}

#[test]
fn causes_follow_the_qualifiers() {
    assert_eq!(interrogation_cot(20), Some(20));
    assert_eq!(interrogation_cot(36), Some(36));
    assert_eq!(interrogation_cot(37), None);
    assert_eq!(counter_interrogation_cot(5), 37);
    assert_eq!(counter_interrogation_cot(4), 41);
    assert_eq!(qoi_group(20), None);
    assert_eq!(qoi_group(21), Some(1));
    assert_eq!(qoi_group(36), Some(16));
    assert!(is_general_data_cot(20) && is_general_data_cot(36) && !is_general_data_cot(37));
    assert!(is_counter_data_cot(37) && is_counter_data_cot(41) && !is_counter_data_cot(42));
}

#[test]
fn labels_name_types_causes_and_states() {
    assert_eq!(type_label(TypeId::M_SP_NA_1), "M_SP_NA_1 单点遥信");
    assert_eq!(type_label(TypeId::Other(200)), "其他 ASDU");
    assert_eq!(cot_label(7), "激活确认");
    assert_eq!(cot_label(21), "分组/其他");
    assert_eq!(spi_label(Spi::On), "1/合");
    assert_eq!(dpi_label(Dpi::Invalid), "3/无效");
}

#[test]
fn log_lines_show_the_first_objects() {
    let asdu = make_asdu(
        TypeId::M_ME_NC_1,
        COT_SPONTANEOUS,
        1,
        0,
        false,
        InformationObjects::Known(
            (0..5)
                .map(|index| InformationObject {
                    address: 100 + index,
                    element: Element::ShortFloat { bits: 1.5f32.to_bits(), qds: GOOD },
                })
                .collect(),
        ),
    );
    let floats: Vec<String> = (0..5).map(|_| "1.500".to_owned()).collect();
    assert_eq!(
        asdu_summary(&asdu, &floats),
        "M_ME_NC_1 短浮点遥测 COT=主动上送 CA=1 OA=0 SQ=0 对象=5 · IOA100=1.500, IOA101=1.500, IOA102=1.500, IOA103=1.500"
    );
    let details = asdu_details(&asdu, &floats);
    assert_eq!(details.len(), 8);
    assert_eq!(details[0], "TypeID: M_ME_NC_1 (13)");
    assert_eq!(details[1], "COT: SpontaneousData (3)");
    assert_eq!(details[2], "CA=1 OA=0 SQ=false Test=false Negative=false");
    assert_eq!(details[7], "对象 #4: IOA104=1.500");
}

#[test]
fn objects_without_a_line_are_printed_whole() {
    let mut clock = request(DispatchAction::ClockSync);
    clock.clock_time_ms = Some(1_767_225_600_123);
    let details = asdu_details(&built(&clock), &Vec::new());
    assert_eq!(details.len(), 4);
    assert!(details[3].starts_with("对象: "));
    assert!(details[3].contains("Cp56Time2a"), "{}", details[3]);
}

#[test]
fn counters_and_measurements_become_rows() {
    let asdu = make_asdu(
        TypeId::M_IT_NA_1,
        37,
        1,
        0,
        false,
        InformationObjects::Known(vec![InformationObject {
            address: 106,
            element: Element::Counter {
                bcr: -55,
                sqd: SeqQd { iv: false, ca: true, cy: false, seq: 3 },
            },
        }]),
    );
    let rows = rows_from_asdu(&asdu, &Vec::new());
    assert_eq!(rows[0].value.as_deref(), Some("-55"));
    assert_eq!(rows[0].quality, "CA|S3");
    assert_eq!(rows[0].kind_name, "电度");
    assert!(!rows[0].configured);
    let asdu = make_asdu(
        TypeId::M_ME_NC_1,
        COT_SPONTANEOUS,
        1,
        0,
        false,
        InformationObjects::Known(vec![InformationObject {
            address: 16_385,
            element: Element::ShortFloat { bits: 12.5f32.to_bits(), qds: GOOD },
        }]),
    );
    let rows = rows_from_asdu(&asdu, &vec!["12.500000".to_owned()]);
    assert_eq!(rows[0].value.as_deref(), Some("12.500000"));
    assert_eq!(rows[0].quality, "GOOD");
    assert!(rows_from_asdu(&built(&request(DispatchAction::Read)), &Vec::new()).is_empty());
}

#[test]
fn moments_without_a_date_are_refused() {
    assert_eq!(
        cp56_from_unix_millis(u64::MAX).unwrap_err(),
        "Unix 毫秒超出 i64 范围: 18446744073709551615"
    );
    assert_eq!(
        cp56_from_unix_millis(8_210_266_876_800_000).unwrap_err(),
        "Unix 毫秒无法转换为时间: 8210266876800000"
    );
    let last = cp56_from_unix_millis(8_210_266_876_799_999).unwrap_err();
    assert!(last.starts_with("CP56Time2a 年份必须在 2000..=2099，实际 26214"), "{last}");
    let tag = cp56_from_unix_millis(1_767_225_600_123).expect("time tag");
    assert_eq!(tag.ms % 1000, 123);
}

#[test]
fn causes_are_shown_by_their_names() {
    for cot in 0..64_u8 {
        let mut unit = built(&request(DispatchAction::Read));
        unit.cot = cot;
        let cause = iec104::cot::Cot::try_from(cot).expect("cause");
        assert_eq!(protocol_meta(&unit).cot, format!("{cause:?}"));
    }
    let name = |cot: u8| {
        let mut unit = built(&request(DispatchAction::Read));
        unit.cot = cot;
        protocol_meta(&unit).cot
    };
    assert_eq!(name(7), "ActivationConfirmation");
    assert_eq!(name(36), "InterrogationGroup16");
    assert_eq!(name(41), "CounterInterrogationGroup4");
    assert_eq!(name(48), "Reserved48");
}
