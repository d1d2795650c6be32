//! Frames and the link.

use agcavc104test::model::ConnectionPhase;
use agcavc104test::protocol::asdu::{asdu_details, make_asdu};
use agcavc104test::protocol::codec::{decode_objects, encode_objects};
use agcavc104test::protocol::element::{
    Cp56Time2a, Diq, Dpi, Element, InformationObject, Qds, Qualifier, Rcs, SelectExecute, SeqQd,
    Siq, Spi, TypeId,
};
use agcavc104test::protocol::frame::{
    apdu_payload_length, encode_asdu_bytes, encode_i_frame, parse_frame,
};
use agcavc104test::protocol::iec::is_unreadable;
use agcavc104test::protocol::message::{
    Asdu, Frame, InformationObjects, UFrame, COT_REQUEST, COT_SPONTANEOUS,
};
use agcavc104test::protocol::wire::{
    describe, sequence_distance, tick_interval, u_frame_label, LinkConfig, LinkRole, LinkSession,
    ProcessedFrame,
};
use iec104::asdu::Asdu as OutsideUnit;

fn test_protocol() -> LinkConfig {
    LinkConfig { t1_ms: 60, t2_ms: 20, t3_ms: 100, k: 12, w: 1 }
}

fn read_request(ioa: u32) -> Asdu {
    make_asdu(
        TypeId::C_RD_NA_1,
        COT_REQUEST,
        1,
        0,
        false,
        InformationObjects::Known(vec![InformationObject { address: ioa, element: Element::Read }]),
    )
}

fn object(address: u32) -> InformationObject {
    InformationObject {
        address,
        element: Element::SinglePoint {
            siq: Siq { iv: false, nt: false, sb: false, bl: false, spi: Spi::On },
        },
    }
}

fn single_points(sequence: bool, addresses: &[u32]) -> Asdu {
    let mut asdu = make_asdu(
        TypeId::M_SP_NA_1,
        COT_SPONTANEOUS,
        1,
        0,
        false,
        InformationObjects::Known(addresses.iter().map(|address| object(*address)).collect()),
    );
    asdu.sequence = sequence;
    asdu
}

/// Hands frames to a session and returns the answers.
fn deliver(session: &mut LinkSession, octets: &[u8], now: u64) -> ProcessedFrame {
    let frame = parse_frame(octets).expect("frame");
    session.process(frame, now).expect("processed")
}

fn start_data_transfer(client: &mut LinkSession, server: &mut LinkSession, now: u64) {
    let sent = client.start_dt(now).expect("send STARTDT");
    let answer = deliver(server, &sent.octets, now);
    assert_eq!(answer.phase_changed, Some(ConnectionPhase::Active));
    deliver(client, &answer.replies[0], now);
    assert!(client.is_active());
    assert!(server.is_active());
}

fn send_and_ack(client: &mut LinkSession, server: &mut LinkSession, ioa: u32, now: u64) {
    let sent = client.send_asdu(read_request(ioa), now).expect("client sends I frame");
    let answer = deliver(server, &sent.octets, now);
    let asdu = answer.asdu.expect("business ASDU");
    assert_eq!(asdu.type_id, TypeId::C_RD_NA_1);
    deliver(client, &answer.replies[0], now);
}

#[test]
fn stop_start_keeps_sequence_and_t3_testfr_keeps_link_active() {
    let mut client = LinkSession::new(LinkRole::Client, test_protocol(), 0);
    let mut server = LinkSession::new(LinkRole::Server, test_protocol(), 0);
    start_data_transfer(&mut client, &mut server, 1);
    send_and_ack(&mut client, &mut server, 1, 2);

    let sent = client.stop_dt(3).expect("send STOPDT");
    let answer = deliver(&mut server, &sent.octets, 3);
    deliver(&mut client, &answer.replies[0], 3);
    assert_eq!(client.phase(), ConnectionPhase::ConnectedStopped);
    assert_eq!(server.phase(), ConnectionPhase::ConnectedStopped);

    start_data_transfer(&mut client, &mut server, 4);
    send_and_ack(&mut client, &mut server, 2, 5);
    assert_eq!(client.sent_counter, 2);

    let ticked = client.tick(125);
    assert!(ticked
        .outcome
        .expect("T3 tick")
        .iter()
        .any(|event| describe(event, &Vec::new()).summary.contains("TESTFR act")));
    let answer = deliver(&mut server, &ticked.replies[0], 126);
    deliver(&mut client, &answer.replies[0], 127);
    assert!(client.is_active());
    assert!(client.tick(128).outcome.is_ok());
}

#[test]
fn acknowledgements_reject_future_and_stale_sequence_numbers() {
    let mut client = LinkSession::new(LinkRole::Client, test_protocol(), 0);
    let mut server = LinkSession::new(LinkRole::Server, test_protocol(), 0);
    start_data_transfer(&mut client, &mut server, 1);

    client.send_asdu(read_request(7), 2).expect("send I frame");
    let error = client
        .process(Frame::S { receive: 100 }, 3)
        .expect_err("future acknowledgement must fail");
    assert!(error.contains("N(R) 非法"));
    assert_eq!(client.unacknowledged_sent.len(), 1);

    client.process(Frame::S { receive: 1 }, 4).expect("valid acknowledgement");
    assert!(client.unacknowledged_sent.is_empty());
    assert!(client.process(Frame::S { receive: 0 }, 5).is_err());
    assert_eq!(sequence_distance(32_767, 0), 1);
}

#[test]
fn sequence_encoding_is_compact_and_rejects_gaps() {
    let compact = encode_asdu_bytes(&single_points(true, &[100, 101])).expect("sequence encode");
    let expanded =
        encode_asdu_bytes(&single_points(false, &[100, 101])).expect("individual encode");
    assert_eq!(expanded.len() - compact.len(), 3);
    let parsed = OutsideUnit::parse(&compact).expect("sequence parse");
    assert!(parsed.sequence);
    match parsed.information_objects {
        iec104::types::InformationObjects::MSpNa1(values) => {
            assert_eq!(values[0].address, 100);
            assert_eq!(values[1].address, 101);
        },
        _ => panic!("wrong information object type"),
    }
    assert!(encode_asdu_bytes(&single_points(true, &[100, 102])).is_err());
}

#[test]
fn frames_survive_the_wire() {
    for sequence in [false, true] {
        let asdu = single_points(sequence, &[100, 101, 102]);
        let octets = encode_i_frame(5, 32_767, &asdu).expect("encode");
        assert_eq!(octets[0], 0x68);
        assert_eq!(octets[1] as usize, octets.len() - 2);
        assert_eq!(apdu_payload_length(octets[0], octets[1]), Ok(octets.len() - 2));
        match parse_frame(&octets).expect("parse") {
            Frame::I { send, receive, asdu: parsed } => {
                assert_eq!((send, receive), (5, 32_767));
                assert_eq!(parsed.sequence, sequence);
                assert_eq!(parsed.cot, COT_SPONTANEOUS);
                match (parsed.information_objects, asdu.information_objects) {
                    (InformationObjects::Known(found), InformationObjects::Known(sent)) => {
                        assert_eq!(found, sent)
                    },
                    _ => panic!("expected known objects"),
                }
            },
            _ => panic!("expected a numbered frame"),
        }
    }
}

#[test]
fn every_element_survives_the_wire() {
    let time = Cp56Time2a {
        ms: 59_999,
        iv: true,
        min: 59,
        summer_time: true,
        hour: 23,
        weekday: 7,
        day: 31,
        month: 12,
        year: 99,
    };
    let siq = Siq { iv: true, nt: false, sb: true, bl: false, spi: Spi::On };
    let diq = Diq { iv: false, nt: true, sb: false, bl: true, dpi: Dpi::Invalid };
    let qds = Qds { iv: true, nt: true, sb: false, bl: false, ov: true };
    let qu = Qualifier { se: SelectExecute::Select, value: 31 };
    let qos = Qualifier { se: SelectExecute::Execute, value: 127 };
    let elements = [
        (TypeId::M_SP_NA_1, Element::SinglePoint { siq }),
        (TypeId::M_DP_NA_1, Element::DoublePoint { diq }),
        (TypeId::M_ME_NA_1, Element::Normalized { nva: -32_768, qds }),
        (TypeId::M_ME_ND_1, Element::NormalizedNoQuality { nva: 32_767 }),
        (TypeId::M_ME_NC_1, Element::ShortFloat { bits: 0xC148_0000, qds }),
        (
            TypeId::M_IT_NA_1,
            Element::Counter { bcr: i32::MIN, sqd: SeqQd { iv: true, ca: false, cy: true, seq: 31 } },
        ),
        (TypeId::M_SP_TB_1, Element::SinglePointTime { siq, time }),
        (TypeId::M_DP_TB_1, Element::DoublePointTime { diq, time }),
        (TypeId::M_EI_NA_1, Element::InitializationEnd { changed: true, cause: 127 }),
        (TypeId::C_SC_NA_1, Element::SingleCommand { scs: Spi::On, qu }),
        (TypeId::C_DC_NA_1, Element::DoubleCommand { dcs: Dpi::On, qu }),
        (TypeId::C_RC_NA_1, Element::RegulatingCommand { rcs: Rcs::Increment, qu }),
        (TypeId::C_SE_NA_1, Element::NormalizedSetpoint { nva: -1, qos }),
        (TypeId::C_SE_NB_1, Element::ScaledSetpoint { sva: 1, qos }),
        (TypeId::C_SE_NC_1, Element::FloatSetpoint { bits: 0x3F80_0000, qos }),
        (TypeId::C_IC_NA_1, Element::Interrogation { qoi: 36 }),
        (TypeId::C_CI_NA_1, Element::CounterInterrogation { rqt: 5, frz: 3 }),
        (TypeId::C_RD_NA_1, Element::Read),
        (TypeId::C_CS_NA_1, Element::ClockSync { time }),
    ];
    for (type_id, element) in elements {
        let objects = vec![InformationObject { address: 0xAB_CDEF, element }];
        let octets = encode_objects(&objects);
        assert_eq!(decode_objects(type_id, false, &octets), objects, "{type_id:?}");
        let asdu = make_asdu(
            type_id,
            6,
            0x1234,
            0x56,
            true,
            InformationObjects::Known(objects.clone()),
        );
        let frame = encode_i_frame(1, 2, &asdu).expect("encode");
        match parse_frame(&frame).expect("parse") {
            Frame::I { asdu: parsed, .. } => {
                assert_eq!(parsed.type_id, type_id);
                assert_eq!(parsed.address_field, 0x1234);
                assert!(parsed.test);
                match parsed.information_objects {
                    InformationObjects::Known(found) => assert_eq!(found, objects),
                    InformationObjects::Other { .. } => panic!("expected known objects"),
                }
            },
            _ => panic!("expected a numbered frame"),
        }
    }
}

#[test]
fn malformed_octets_are_refused() {
    assert!(parse_frame(&[0x68, 4, 1, 0, 0]).is_err());
    assert!(parse_frame(&[0x69, 4, 1, 0, 0, 0]).is_err());
    assert!(parse_frame(&[0x68, 4, 3, 1, 0, 0]).is_err());
    assert_eq!(
        apdu_payload_length(0x69, 4).unwrap_err(),
        "APDU 启动字符非法: 0x69"
    );
    assert!(apdu_payload_length(0x68, 3).is_err());
    assert!(apdu_payload_length(0x68, 254).is_err());
    assert_eq!(apdu_payload_length(0x68, 253), Ok(253));
    let mut many = single_points(false, &[1]);
    many.information_objects = InformationObjects::Known((0..128).map(object).collect());
    assert!(encode_asdu_bytes(&many).is_err());
}

#[test]
fn units_of_other_types_are_passed_through() {
    let octets = [0x68, 18, 0, 0, 0, 0, 11, 1, 3, 0, 1, 0, 9, 0, 0, 0x34, 0x12, 0x00];
    let mut frame = octets.to_vec();
    frame[1] = (frame.len() - 2) as u8;
    match parse_frame(&frame).expect("scaled value") {
        Frame::I { asdu, .. } => {
            assert_eq!(asdu.type_id, TypeId::Other(11));
            match asdu.information_objects {
                InformationObjects::Other { count, octets } => {
                    assert_eq!(count, 1);
                    assert_eq!(octets, vec![9, 0, 0, 0x34, 0x12, 0x00]);
                },
                InformationObjects::Known(_) => panic!("expected other objects"),
            }
        },
        _ => panic!("expected a numbered frame"),
    }
}

#[test]
fn units_of_other_types_are_shortened_by_their_size() {
    let objects = |octets: &[u8]| InformationObjects::Other { count: 2, octets: octets.to_vec() };
    let scaled = [9, 0, 0, 0x34, 0x12, 0, 10, 0, 0, 0x78, 0x56, 0];
    let mut unit = make_asdu(TypeId::Other(11), COT_SPONTANEOUS, 1, 0, false, objects(&scaled));
    let details = asdu_details(&unit, &Vec::new());
    assert!(details.last().expect("objects").starts_with("对象: MMeNb1(["), "{details:?}");
    unit.sequence = true;
    assert_eq!(
        encode_asdu_bytes(&unit).expect("consecutive addresses"),
        vec![11, 0x82, 3, 0, 1, 0, 9, 0, 0, 0x34, 0x12, 0, 0x78, 0x56, 0]
    );
    unit.type_id = TypeId::Other(200);
    assert_eq!(
        encode_asdu_bytes(&unit).unwrap_err(),
        "非标准 TypeID 不支持顺序编址"
    );
    unit.type_id = TypeId::Other(11);
    let scattered = [9, 0, 0, 0x34, 0x12, 0, 12, 0, 0, 0x78, 0x56, 0];
    unit.information_objects = objects(&scattered);
    assert_eq!(
        encode_asdu_bytes(&unit).unwrap_err(),
        "顺序编址要求 IOA 连续：起始 9，第 1 个为 12"
    );
}

#[test]
fn read_commands_with_one_address_for_all_are_told_apart() {
    let frame = [0x68, 13, 0, 0, 0, 0, 102, 0x81, 5, 0, 1, 0, 9, 0, 0];
    assert!(is_unreadable(&frame));
    let mut single = frame;
    single[7] = 1;
    assert!(!is_unreadable(&single));
    assert!(parse_frame(&single).is_ok());
    let mut longer = frame.to_vec();
    longer.push(0);
    assert!(!is_unreadable(&longer));
    assert_eq!(parse_frame(&longer).unwrap_err(), "解析 APDU 失败: Invalid ASDU");
}

#[test]
fn windows_and_timers_guard_the_link() {
    let config = LinkConfig { t1_ms: 60, t2_ms: 20, t3_ms: 100, k: 2, w: 8 };
    let mut client = LinkSession::new(LinkRole::Client, config, 0);
    let mut server = LinkSession::new(LinkRole::Server, config, 0);
    assert_eq!(
        client.send_asdu(read_request(1), 1).unwrap_err(),
        "链路状态 已连接/未启动传输，不能发送 I 帧"
    );
    assert_eq!(server.start_dt(1).unwrap_err(), "只有调度客户端可以主动发送 STARTDT");
    assert_eq!(client.stop_dt(1).unwrap_err(), "只有 ACTIVE 状态可以发送 STOPDT");
    assert_eq!(client.manual_test(1).unwrap_err(), "只有 ACTIVE 状态可以发送 TESTFR");
    start_data_transfer(&mut client, &mut server, 1);
    let first = client.send_asdu(read_request(1), 2).expect("first");
    client.send_asdu(read_request(2), 2).expect("second");
    assert_eq!(client.send_asdu(read_request(3), 2).unwrap_err(), "发送窗口已满 K=2");
    let answer = deliver(&mut server, &first.octets, 3);
    assert!(answer.replies.is_empty());
    let ticked = server.tick(23);
    assert!(ticked.outcome.is_ok());
    assert_eq!(ticked.replies, vec![vec![0x68, 4, 1, 0, 2, 0]]);
    assert!(client.tick(61).outcome.is_ok());
    assert!(client.tick(62).outcome.is_err());
    assert_eq!(tick_interval(), 50);
}

#[test]
fn data_before_the_start_is_acknowledged_but_not_handed_on() {
    let mut server = LinkSession::new(LinkRole::Server, test_protocol(), 0);
    let octets = encode_i_frame(0, 0, &read_request(1)).expect("encode");
    let answer = deliver(&mut server, &octets, 1);
    assert!(answer.asdu.is_none());
    assert_eq!(answer.replies.len(), 1);
    let last = answer.events.last().expect("event");
    assert_eq!(
        describe(last, &Vec::new()).summary,
        "未激活状态收到 I 帧，已做链路确认但未交给业务"
    );
    assert!(server.process(Frame::I { send: 5, receive: 0, asdu: read_request(2) }, 2).is_err());
}

#[test]
fn unnumbered_frames_have_one_function() {
    let none = UFrame {
        start_dt_activation: false,
        start_dt_confirmation: false,
        stop_dt_activation: false,
        stop_dt_confirmation: false,
        test_fr_activation: false,
        test_fr_confirmation: false,
    };
    let mut server = LinkSession::new(LinkRole::Server, test_protocol(), 0);
    assert_eq!(
        server.process(Frame::U(none), 1).unwrap_err(),
        "U 帧必须且只能设置一个功能位，实际 0"
    );
    let test = UFrame { test_fr_activation: true, ..none };
    assert_eq!(u_frame_label(&test), "TESTFR act");
    let answer = server.process(Frame::U(test), 2).expect("test");
    assert_eq!(answer.replies, vec![vec![0x68, 4, 0x83, 0, 0, 0]]);
    assert_eq!(answer.phase_changed, None);
}

#[test]
fn the_timers_start_nothing() {
    let mut client = LinkSession::new(LinkRole::Client, test_protocol(), 0);
    for now in [10, 100, 1_000, 100_000] {
        let ticked = client.tick(now);
        assert!(ticked.outcome.is_ok());
        assert!(ticked.replies.is_empty());
        assert_eq!(client.phase(), ConnectionPhase::ConnectedStopped);
    }
}

#[test]
fn every_other_standard_type_is_shortened_and_read_back() {
    let others: Vec<u8> = vec![
        2, 4, 5, 6, 7, 10, 11, 12, 14, 17, 18, 19, 20, 32, 33, 34, 35, 36, 37, 38, 39, 40, 51, 58,
        59, 60, 61, 62, 63, 64, 104, 105, 106, 107, 110, 111, 112, 113,
    ];
    for number in others {
        let size = iec104::types_id::TypeId::from(number).size();
        let unit = |sequence: bool, addresses: [u8; 3]| {
            let mut octets = Vec::new();
            for address in addresses {
                octets.extend([address, 1, 0]);
                octets.extend(vec![0x11; size]);
            }
            let objects = InformationObjects::Other { count: 3, octets };
            let mut unit =
                make_asdu(TypeId::Other(number), COT_SPONTANEOUS, 1, 0, false, objects);
            unit.sequence = sequence;
            unit
        };
        let plain = encode_asdu_bytes(&unit(false, [8, 9, 10])).expect("individual addresses");
        let short = encode_asdu_bytes(&unit(true, [8, 9, 10])).expect("one address");
        assert_eq!(plain.len(), 6 + 3 * (3 + size), "type {number}");
        assert_eq!(plain.len() - short.len(), 6, "type {number}");
        assert_eq!(short[1], plain[1] | 0x80, "type {number}");
        assert!(encode_asdu_bytes(&unit(true, [8, 9, 11])).is_err(), "type {number}");

        let frame = encode_i_frame(5, 6, &unit(true, [8, 9, 10])).expect("frame");
        match parse_frame(&frame).expect("accepted") {
            Frame::I { send, receive, asdu } => {
                assert_eq!((send, receive), (5, 6));
                assert!(asdu.sequence);
                assert_eq!(asdu.type_id, TypeId::Other(number));
                let InformationObjects::Other { count, octets } = asdu.information_objects else {
                    panic!("expected other objects");
                };
                assert_eq!(count, 3, "type {number}");
                let addresses: Vec<&[u8]> =
                    octets.chunks(3 + size).map(|object| &object[..3]).collect();
                assert_eq!(addresses, vec![&[8, 1, 0], &[9, 1, 0], &[10, 1, 0]], "type {number}");
            },
            _ => panic!("expected a numbered frame"),
        }
    }
}

#[test]
fn addresses_beyond_three_octets_are_printed_in_full() {
    for (number, elements) in [(11u8, vec![0x34, 0x12, 0, 0x78, 0x56, 0]), (70, vec![0, 0])] {
        let mut frame = vec![0x68, 0, 0, 0, 0, 0, number, 0x82, 3, 0, 1, 0, 0xFF, 0xFF, 0xFF];
        frame.extend(elements);
        frame[1] = (frame.len() - 2) as u8;
        match parse_frame(&frame).expect("accepted") {
            Frame::I { asdu, .. } => {
                let details = asdu_details(&asdu, &Vec::new());
                let printed = details.last().expect("objects");
                assert!(printed.contains("address: 16777215"), "{printed}");
                assert!(printed.contains("address: 16777216"), "{printed}");
            },
            _ => panic!("expected a numbered frame"),
        }
    }
}
