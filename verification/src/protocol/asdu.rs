//! Requests, confirmations and the texts that describe a unit.

use crate::clock::{has_date, local_from_millis, local_now, LocalTime};
use crate::model::{
    now_millis, rows, ControlPhase, DispatchAction, DispatchRequest, MetaView, PointRow, PointView,
    ProtocolMeta,
};
use crate::number::{double_at_most, Real, DOUBLE_SIGN, SINGLE_MAX};
use crate::protocol::codec::{encode_objects, take_unsigned24};
use crate::protocol::element::{
    Cp56Time2a, Dpi, Element, InformationObject, Qualifier, Rcs, SelectExecute, Spi, TypeId,
};
use crate::protocol::iec::{
    cot_name, iec_cot_name, iec_objects_text, iec_type_is_standard, iec_type_name, iec_type_size,
    object_address, objects_text, type_is_standard, type_mnemonic, type_size,
};
use crate::protocol::message::{
    append_octets, copy_octets, Asdu, AsduView, InformationObjects, ObjectsView, COT_ACTIVATION,
    COT_COUNTER_INTERROGATION_GENERAL, COT_REQUEST,
};
use crate::text::{
    cat, cat_bool, cat_number, cat_signed, bool_text, decimal, join, joined, signed_decimal, texts,
};
use vstd::prelude::*;

verus! {

pub fn make_asdu(
    type_id: TypeId,
    cot: u8,
    common_address: u16,
    originator_address: u8,
    test: bool,
    information_objects: InformationObjects,
) -> (result: Asdu)
    ensures
        result@ == (AsduView {
            type_id,
            cot,
            originator_address,
            address_field: common_address,
            sequence: false,
            test,
            negative: false,
            objects: information_objects@,
        }),
{
    Asdu {
        type_id,
        cot,
        originator_address,
        address_field: common_address,
        sequence: false,
        test,
        negative: false,
        information_objects,
    }
}

/// The answer to a request: the request with its own cause, sign and the
/// address of the answering station.
pub open spec fn confirmed(request: AsduView, cot: u8, negative: bool, concrete_ca: u16) -> AsduView {
    AsduView { cot, negative, address_field: concrete_ca, ..request }
}

pub fn confirmation(request: &Asdu, cot: u8, negative: bool, concrete_ca: u16) -> (result: Asdu)
    ensures
        result@ == confirmed(request@, cot, negative, concrete_ca),
{
    Asdu {
        type_id: request.type_id,
        cot,
        originator_address: request.originator_address,
        address_field: concrete_ca,
        sequence: request.sequence,
        test: request.test,
        negative,
        information_objects: request.information_objects.copy(),
    }
}

// ---------------------------------------------------------------------------
// Time tags.
/// The time tag of a local time.
pub open spec fn time_tag(value: LocalTime) -> Cp56Time2a {
    let millis = value.second * 1000 + value.subsec_millis;
    Cp56Time2a {
        ms: if millis <= 59_999 {
            millis as u16
        } else {
            59_999
        },
        iv: false,
        min: value.minute as u8,
        summer_time: false,
        hour: value.hour as u8,
        weekday: value.weekday as u8,
        day: value.day as u8,
        month: value.month as u8,
        year: (value.year - 2000) as u8,
    }
}

pub open spec fn year_refusal(year: i32) -> Seq<char> {
    "CP56Time2a 年份必须在 2000..=2099，实际 "@ + signed_decimal(year as int)
}

pub open spec fn time_outcome(value: LocalTime) -> Result<Cp56Time2a, Seq<char>> {
    if 2000 <= value.year <= 2099 {
        Ok(time_tag(value))
    } else {
        Err(year_refusal(value.year))
    }
}

pub open spec fn time_view(result: Result<Cp56Time2a, String>) -> Result<Cp56Time2a, Seq<char>> {
    match result {
        Ok(time) => Ok(time),
        Err(text) => Err(text@),
    }
}

pub fn cp56_from_local_datetime(value: LocalTime) -> (result: Result<Cp56Time2a, String>)
    requires
        value.in_range(),
    ensures
        time_view(result) == time_outcome(value),
        result matches Ok(time) ==> time.valid(),
{
    if value.year < 2000 || value.year > 2099 {
        return Err(
            cat_signed("CP56Time2a 年份必须在 2000..=2099，实际 ".to_owned(), value.year as i64),
        );
    }
    let millis: u32 = value.second * 1000 + value.subsec_millis;
    Ok(
        Cp56Time2a {
            ms: if millis <= 59_999 {
                millis as u16
            } else {
                59_999
            },
            iv: false,
            min: value.minute as u8,
            summer_time: false,
            hour: value.hour as u8,
            weekday: value.weekday as u8,
            day: value.day as u8,
            month: value.month as u8,
            year: (value.year - 2000) as u8,
        },
    )
}

/// The time tag is that of some moment in the zone of the machine, or the
/// refusal of one whose year does not fit.
pub open spec fn local_tag(time: Result<Cp56Time2a, Seq<char>>) -> bool {
    exists|value: LocalTime|
        value.in_range() && value.on_its_weekday() && time == #[trigger] time_outcome(value)
}

/// The time tag of the present moment in the zone of the machine.
pub fn current_cp56_time() -> (result: Result<Cp56Time2a, String>)
    ensures
        local_tag(time_view(result)),
        result matches Ok(time) ==> time.valid(),
{
    cp56_from_local_datetime(local_now())
}

pub open spec fn beyond_i64_text(unix_millis: u64) -> Seq<char> {
    "Unix 毫秒超出 i64 范围: "@ + decimal(unix_millis as nat)
}

pub open spec fn no_date_text(unix_millis: u64) -> Seq<char> {
    "Unix 毫秒无法转换为时间: "@ + decimal(unix_millis as nat)
}

/// The time tag is that of a moment in some zone, or the refusal of a year that
/// does not fit.
pub open spec fn tag_of_moment(unix_millis: u64, time: Result<Cp56Time2a, Seq<char>>) -> bool {
    exists|value: LocalTime|
        value.stands_for(unix_millis as int) && time == #[trigger] time_outcome(value)
}

/// The time tag of a moment in the zone of the machine.
pub fn cp56_from_unix_millis(unix_millis: u64) -> (result: Result<Cp56Time2a, String>)
    ensures
        if unix_millis > i64::MAX {
            time_view(result) == Err::<Cp56Time2a, Seq<char>>(beyond_i64_text(unix_millis))
        } else if !has_date(unix_millis as int) {
            time_view(result) == Err::<Cp56Time2a, Seq<char>>(no_date_text(unix_millis))
        } else {
            tag_of_moment(unix_millis, time_view(result))
        },
        result matches Ok(time) ==> time.valid(),
{
    if unix_millis > i64::MAX as u64 {
        return Err(cat_number("Unix 毫秒超出 i64 范围: ".to_owned(), unix_millis));
    }
    match local_from_millis(unix_millis as i64) {
        None => Err(cat_number("Unix 毫秒无法转换为时间: ".to_owned(), unix_millis)),
        Some(value) => cp56_from_local_datetime(value),
    }
}

// ---------------------------------------------------------------------------
// Requests.
pub open spec fn setpoint_action(action: DispatchAction) -> bool {
    action is NormalizedSetpoint || action is ScaledSetpoint || action is FloatSetpoint
}

pub open spec fn largest_qualifier(action: DispatchAction) -> u8 {
    if setpoint_action(action) {
        127
    } else {
        31
    }
}

/// Why the fields of a request cannot be sent, if they cannot.
pub open spec fn field_refusal(request: DispatchRequest) -> Option<Seq<char>> {
    let action = request.action;
    if !action.link_only() && request.common_address == 0 {
        Some("CA 不能为 0"@)
    } else if (action is Read || action.control()) && request.ioa > 0xFF_FFFF {
        Some("IOA="@ + decimal(request.ioa as nat) + " 超出三字节范围"@)
    } else if action is GeneralInterrogation && !(20 <= request.qoi <= 36) {
        Some("QOI 必须在 20..=36"@)
    } else if action is CounterInterrogation && !(1 <= request.qcc_request <= 5) {
        Some("QCC 请求组必须在 1..=5"@)
    } else if action is CounterInterrogation && request.qcc_freeze > 3 {
        Some("QCC 冻结限定词必须在 0..=3"@)
    } else if action.control() && request.qualifier > largest_qualifier(action) {
        Some("限定词必须在 0..="@ + decimal(largest_qualifier(action) as nat))
    } else {
        None
    }
}

pub open spec fn refusal_view(result: Result<(), String>) -> Option<Seq<char>> {
    match result {
        Ok(_) => None,
        Err(text) => Some(text@),
    }
}

pub fn validate_dispatch_request_fields(request: &DispatchRequest) -> (result: Result<(), String>)
    ensures
        refusal_view(result) == field_refusal(*request),
{
    let action = request.action;
    let link_only = matches!(
        action,
        DispatchAction::StartDt | DispatchAction::StopDt | DispatchAction::TestFr
    );
    if !link_only && request.common_address == 0 {
        return Err("CA 不能为 0".to_owned());
    }
    if action.uses_ioa() && request.ioa > 0xFF_FFFF {
        let text = cat_number("IOA=".to_owned(), request.ioa as u64);
        return Err(cat(text, " 超出三字节范围"));
    }
    if action == DispatchAction::GeneralInterrogation && !(20 <= request.qoi && request.qoi <= 36) {
        return Err("QOI 必须在 20..=36".to_owned());
    }
    if action == DispatchAction::CounterInterrogation {
        if !(1 <= request.qcc_request && request.qcc_request <= 5) {
            return Err("QCC 请求组必须在 1..=5".to_owned());
        }
        if request.qcc_freeze > 3 {
            return Err("QCC 冻结限定词必须在 0..=3".to_owned());
        }
    }
    if action.is_control() {
        let setpoint = matches!(
            action,
            DispatchAction::NormalizedSetpoint
                | DispatchAction::ScaledSetpoint
                | DispatchAction::FloatSetpoint
        );
        let maximum: u8 = if setpoint {
            127
        } else {
            31
        };
        if request.qualifier > maximum {
            return Err(cat_number("限定词必须在 0..=".to_owned(), maximum as u64));
        }
    }
    Ok(())
}

/// The state that a discrete value stands for.
pub open spec fn bool_outcome(value: Real, label: Seq<char>) -> Result<bool, Seq<char>> {
    if value.equals_integer(0) {
        Ok(false)
    } else if value.equals_integer(1) {
        Ok(true)
    } else {
        Err(label + "值只能为 0 或 1"@)
    }
}

pub open spec fn bool_view(result: Result<bool, String>) -> Result<bool, Seq<char>> {
    match result {
        Ok(value) => Ok(value),
        Err(text) => Err(text@),
    }
}

fn bool_value(value: Real, label: &str) -> (result: Result<bool, String>)
    ensures
        bool_view(result) == bool_outcome(value, label@),
{
    if value.is_integer(0) {
        Ok(false)
    } else if value.is_integer(1) {
        Ok(true)
    } else {
        Err(cat(label.to_owned(), "值只能为 0 或 1"))
    }
}

pub open spec fn integer_refusal(min: int, max: int, label: Seq<char>) -> Seq<char> {
    label + "值必须是 "@ + signed_decimal(min) + "..="@ + signed_decimal(max) + " 的整数"@
}

fn integer_value(value: Real, min: i64, max: i64, label: &str) -> (result: Result<i64, String>)
    requires
        -0x1_0000_0000 <= min <= max <= 0x1_0000_0000,
    ensures
        match result {
            Ok(number) => min <= number <= max && value.equals_integer(number as int),
            Err(text) => text@ == integer_refusal(min as int, max as int, label@) && forall|
                number: int,
            |
                min <= number <= max ==> !value.equals_integer(number),
        },
{
    let found = value.small_integer();
    if let Some(number) = found {
        if min <= number && number <= max {
            return Ok(number);
        }
        proof {
            assert forall|other: int| min <= other <= max implies !value.equals_integer(other) by {
                crate::number::lemma_whole_is_injective(number as int, other);
            }
        }
    }
    let text = cat_signed(cat(label.to_owned(), "值必须是 "), min);
    Err(cat(cat_signed(cat(text, "..="), max), " 的整数"))
}

/// The element is the one that a request asks for. The time is only looked at
/// where the clock is set.
pub open spec fn requested_element(
    request: DispatchRequest,
    time: Result<Cp56Time2a, Seq<char>>,
    outcome: Result<Element, Seq<char>>,
) -> bool {
    let value = request.value;
    let se = if request.phase is Select {
        SelectExecute::Select
    } else {
        SelectExecute::Execute
    };
    let qualifier = Qualifier { se, value: request.qualifier };
    match request.action {
        DispatchAction::GeneralInterrogation => outcome == Ok::<Element, Seq<char>>(
            Element::Interrogation { qoi: request.qoi },
        ),
        DispatchAction::CounterInterrogation => outcome == Ok::<Element, Seq<char>>(
            Element::CounterInterrogation { rqt: request.qcc_request, frz: request.qcc_freeze },
        ),
        DispatchAction::ClockSync => outcome == (match time {
            Ok(time) => Ok::<Element, Seq<char>>(Element::ClockSync { time }),
            Err(text) => Err(text),
        }),
        DispatchAction::Read => outcome == Ok::<Element, Seq<char>>(Element::Read),
        DispatchAction::SingleControl => outcome == (match bool_outcome(value, "单点遥控"@) {
            Ok(on) => Ok::<Element, Seq<char>>(
                Element::SingleCommand {
                    scs: if on {
                        Spi::On
                    } else {
                        Spi::Off
                    },
                    qu: qualifier,
                },
            ),
            Err(text) => Err(text),
        }),
        DispatchAction::DoubleControl => outcome == (match bool_outcome(value, "双点遥控"@) {
            Ok(on) => Ok::<Element, Seq<char>>(
                Element::DoubleCommand {
                    dcs: if on {
                        Dpi::On
                    } else {
                        Dpi::Off
                    },
                    qu: qualifier,
                },
            ),
            Err(text) => Err(text),
        }),
        DispatchAction::RegulatingStep => if value.equals_integer(-1) {
            outcome == Ok::<Element, Seq<char>>(
                Element::RegulatingCommand { rcs: Rcs::Decrement, qu: qualifier },
            )
        } else if value.equals_integer(0) {
            outcome == Ok::<Element, Seq<char>>(
                Element::RegulatingCommand { rcs: Rcs::Unset, qu: qualifier },
            )
        } else if value.equals_integer(1) {
            outcome == Ok::<Element, Seq<char>>(
                Element::RegulatingCommand { rcs: Rcs::Increment, qu: qualifier },
            )
        } else {
            outcome == Err::<Element, Seq<char>>(integer_refusal(-1, 1, "升降控制"@))
        },
        DispatchAction::NormalizedSetpoint => match outcome {
            Ok(Element::NormalizedSetpoint { nva, qos }) => value.equals_integer(nva as int) && qos
                == qualifier,
            Ok(_) => false,
            Err(text) => text == integer_refusal(-32768, 32767, "归一化遥调"@)
                && no_integer_within(value, -32768, 32767),
        },
        DispatchAction::ScaledSetpoint => match outcome {
            Ok(Element::ScaledSetpoint { sva, qos }) => value.equals_integer(sva as int) && qos
                == qualifier,
            Ok(_) => false,
            Err(text) => text == integer_refusal(-32768, 32767, "标度化遥调"@)
                && no_integer_within(value, -32768, 32767),
        },
        DispatchAction::FloatSetpoint => if fits_single(value) {
            outcome == Ok::<Element, Seq<char>>(
                Element::FloatSetpoint { bits: value.single, qos: qualifier },
            )
        } else {
            outcome == Err::<Element, Seq<char>>("短浮点遥调值必须是有限 f32"@)
        },
        _ => false,
    }
}

pub open spec fn no_integer_within(value: Real, min: int, max: int) -> bool {
    forall|number: int| min <= number <= max ==> !value.equals_integer(number)
}

/// The value is finite and not beyond the largest single.
pub open spec fn fits_single(value: Real) -> bool {
    value.finite() && double_at_most((SINGLE_MAX + DOUBLE_SIGN) as u64, value.double)
        && double_at_most(value.double, SINGLE_MAX)
}

fn is_single(value: Real) -> (result: bool)
    ensures
        result == fits_single(value),
{
    let low = Real { double: SINGLE_MAX + DOUBLE_SIGN, single: 0 };
    let high = Real { double: SINGLE_MAX, single: 0 };
    value.is_finite() && low.at_most(value) && value.at_most(high)
}

/// The unit that carries the element of a request.
pub open spec fn request_unit(request: DispatchRequest, element: Element) -> AsduView {
    AsduView {
        type_id: element.kind(),
        cot: if request.action is Read {
            COT_REQUEST
        } else {
            COT_ACTIVATION
        },
        originator_address: request.originator_address,
        address_field: request.common_address,
        sequence: false,
        test: request.test,
        negative: false,
        objects: ObjectsView::Known(
            seq![
                InformationObject {
                    address: if request.action is Read || request.action.control() {
                        request.ioa
                    } else {
                        0
                    },
                    element,
                },
            ],
        ),
    }
}

pub open spec fn unit_view(result: Result<Option<Asdu>, String>) -> Result<
    Option<AsduView>,
    Seq<char>,
> {
    match result {
        Ok(Some(asdu)) => Ok(Some(asdu@)),
        Ok(None) => Ok(None),
        Err(text) => Err(text@),
    }
}

/// What a request becomes: a refusal, nothing for a link command, or the unit
/// to send.
pub open spec fn request_becomes(
    request: DispatchRequest,
    time: Result<Cp56Time2a, Seq<char>>,
    outcome: Result<Option<AsduView>, Seq<char>>,
) -> bool {
    match field_refusal(request) {
        Some(text) => outcome == Err::<Option<AsduView>, Seq<char>>(text),
        None => if request.action.link_only() {
            outcome == Ok::<Option<AsduView>, Seq<char>>(None)
        } else {
            exists|element: Result<Element, Seq<char>>| #[trigger]
                requested_element(request, time, element) && outcome == became(request, element)
        },
    }
}

/// What a request becomes with its element.
pub open spec fn became(request: DispatchRequest, element: Result<Element, Seq<char>>) -> Result<
    Option<AsduView>,
    Seq<char>,
> {
    match element {
        Ok(element) => Ok(Some(request_unit(request, element))),
        Err(text) => Err(text),
    }
}

pub open spec fn element_view(result: Result<Element, String>) -> Result<Element, Seq<char>> {
    match result {
        Ok(element) => Ok(element),
        Err(text) => Err(text@),
    }
}

fn request_element(request: &DispatchRequest, time: Result<Cp56Time2a, String>) -> (result: Result<
    Element,
    String,
>)
    requires
        !request.action.link_only(),
    ensures
        requested_element(*request, time_view(time), element_view(result)),
{
    let se = match request.phase {
        ControlPhase::Select => SelectExecute::Select,
        ControlPhase::Execute => SelectExecute::Execute,
    };
    let qualifier = Qualifier { se, value: request.qualifier };
    match request.action {
        DispatchAction::GeneralInterrogation => Ok(Element::Interrogation { qoi: request.qoi }),
        DispatchAction::CounterInterrogation => Ok(
            Element::CounterInterrogation { rqt: request.qcc_request, frz: request.qcc_freeze },
        ),
        DispatchAction::ClockSync => match time {
            Ok(time) => Ok(Element::ClockSync { time }),
            Err(text) => Err(text),
        },
        DispatchAction::SingleControl => match bool_value(request.value, "单点遥控") {
            Ok(on) => Ok(
                Element::SingleCommand {
                    scs: if on {
                        Spi::On
                    } else {
                        Spi::Off
                    },
                    qu: qualifier,
                },
            ),
            Err(text) => Err(text),
        },
        DispatchAction::DoubleControl => match bool_value(request.value, "双点遥控") {
            Ok(on) => Ok(
                Element::DoubleCommand {
                    dcs: if on {
                        Dpi::On
                    } else {
                        Dpi::Off
                    },
                    qu: qualifier,
                },
            ),
            Err(text) => Err(text),
        },
        DispatchAction::RegulatingStep => match integer_value(request.value, -1, 1, "升降控制") {
            Ok(step) => {
                proof {
                    crate::number::lemma_whole_is_injective(step as int, -1);
                    crate::number::lemma_whole_is_injective(step as int, 0);
                }
                let rcs = if step == -1 {
                    Rcs::Decrement
                } else if step == 1 {
                    Rcs::Increment
                } else {
                    Rcs::Unset
                };
                Ok(Element::RegulatingCommand { rcs, qu: qualifier })
            },
            Err(text) => Err(text),
        },
        DispatchAction::NormalizedSetpoint => match integer_value(
            request.value,
            -32768,
            32767,
            "归一化遥调",
        ) {
            Ok(value) => Ok(Element::NormalizedSetpoint { nva: value as i16, qos: qualifier }),
            Err(text) => Err(text),
        },
        DispatchAction::ScaledSetpoint => match integer_value(
            request.value,
            -32768,
            32767,
            "标度化遥调",
        ) {
            Ok(value) => Ok(Element::ScaledSetpoint { sva: value as i16, qos: qualifier }),
            Err(text) => Err(text),
        },
        DispatchAction::FloatSetpoint => if is_single(request.value) {
            Ok(Element::FloatSetpoint { bits: request.value.single, qos: qualifier })
        } else {
            Err("短浮点遥调值必须是有限 f32".to_owned())
        },
        _ => Ok(Element::Read),
    }
}

/// Turns a request into the unit to send, with the time tag that a clock
/// command is to carry.
pub fn build_request_at(request: &DispatchRequest, time: Result<Cp56Time2a, String>) -> (result:
    Result<Option<Asdu>, String>)
    ensures
        request_becomes(*request, time_view(time), unit_view(result)),
{
    let checked = validate_dispatch_request_fields(request);
    if let Err(text) = checked {
        return Err(text);
    }
    if matches!(
        request.action,
        DispatchAction::StartDt | DispatchAction::StopDt | DispatchAction::TestFr
    ) {
        return Ok(None);
    }
    let ghost tag = time_view(time);
    let element = request_element(request, time);
    assert(requested_element(*request, tag, element_view(element)));
    match element {
        Err(text) => Err(text),
        Ok(element) => {
            let address: u32 = if request.action.uses_ioa() {
                request.ioa
            } else {
                0
            };
            let cot: u8 = if request.action == DispatchAction::Read {
                COT_REQUEST
            } else {
                COT_ACTIVATION
            };
            let objects: Vec<InformationObject> = vec![InformationObject { address, element }];
            assert(objects@ =~= seq![InformationObject { address, element }]);
            let unit = make_asdu(
                element_type(element),
                cot,
                request.common_address,
                request.originator_address,
                request.test,
                InformationObjects::Known(objects),
            );
            Ok(Some(unit))
        },
    }
}

/// The time tag that a clock command may carry: that of the moment it names, or
/// of the moment at which it is sent.
pub open spec fn time_for(request: DispatchRequest, time: Result<Cp56Time2a, Seq<char>>) -> bool {
    request.action is ClockSync ==> match request.clock_time_ms {
        Some(millis) => if millis > i64::MAX {
            time == Err::<Cp56Time2a, Seq<char>>(beyond_i64_text(millis))
        } else if !has_date(millis as int) {
            time == Err::<Cp56Time2a, Seq<char>>(no_date_text(millis))
        } else {
            tag_of_moment(millis, time)
        },
        None => local_tag(time),
    }
}

/// What a request may become when it is sent.
pub open spec fn request_may_become(
    request: DispatchRequest,
    outcome: Result<Option<AsduView>, Seq<char>>,
) -> bool {
    exists|time: Result<Cp56Time2a, Seq<char>>|
        time_for(request, time) && (time matches Ok(tag) ==> tag.valid()) && #[trigger]
            request_becomes(request, time, outcome)
}

/// Turns a request into the unit to send. A clock command without a time reads
/// the clock of the machine.
pub fn build_dispatch_request(request: &DispatchRequest) -> (result: Result<Option<Asdu>, String>)
    ensures
        request_may_become(*request, unit_view(result)),
{
    let time = if request.action == DispatchAction::ClockSync {
        match request.clock_time_ms {
            Some(value) => cp56_from_unix_millis(value),
            None => current_cp56_time(),
        }
    } else {
        Err(String::new())
    };
    let ghost tag = time_view(time);
    assert(time_for(*request, tag));
    let result = build_request_at(request, time);
    assert(request_becomes(*request, tag, unit_view(result)));
    result
}

pub fn element_type(element: Element) -> (result: TypeId)
    ensures
        result == element.kind(),
{
    match element {
        Element::SinglePoint { .. } => TypeId::M_SP_NA_1,
        Element::DoublePoint { .. } => TypeId::M_DP_NA_1,
        Element::Normalized { .. } => TypeId::M_ME_NA_1,
        Element::NormalizedNoQuality { .. } => TypeId::M_ME_ND_1,
        Element::ShortFloat { .. } => TypeId::M_ME_NC_1,
        Element::Counter { .. } => TypeId::M_IT_NA_1,
        Element::SinglePointTime { .. } => TypeId::M_SP_TB_1,
        Element::DoublePointTime { .. } => TypeId::M_DP_TB_1,
        Element::InitializationEnd { .. } => TypeId::M_EI_NA_1,
        Element::SingleCommand { .. } => TypeId::C_SC_NA_1,
        Element::DoubleCommand { .. } => TypeId::C_DC_NA_1,
        Element::RegulatingCommand { .. } => TypeId::C_RC_NA_1,
        Element::NormalizedSetpoint { .. } => TypeId::C_SE_NA_1,
        Element::ScaledSetpoint { .. } => TypeId::C_SE_NB_1,
        Element::FloatSetpoint { .. } => TypeId::C_SE_NC_1,
        Element::Interrogation { .. } => TypeId::C_IC_NA_1,
        Element::CounterInterrogation { .. } => TypeId::C_CI_NA_1,
        Element::Read => TypeId::C_RD_NA_1,
        Element::ClockSync { .. } => TypeId::C_CS_NA_1,
    }
}

/// A request for anything but the clock becomes the same whenever it is asked.
pub proof fn law_requests_become_the_same(
    request: DispatchRequest,
    first: Result<Option<AsduView>, Seq<char>>,
    second: Result<Option<AsduView>, Seq<char>>,
)
    requires
        request.action !is ClockSync,
        request_may_become(request, first),
        request_may_become(request, second),
    ensures
        first == second,
{
    if field_refusal(request) is None && !request.action.link_only() {
        let (a, left) = choose|
            time: Result<Cp56Time2a, Seq<char>>,
            element: Result<Element, Seq<char>>,
        | #[trigger]
            requested_element(request, time, element) && first == became(request, element);
        let (b, right) = choose|
            time: Result<Cp56Time2a, Seq<char>>,
            element: Result<Element, Seq<char>>,
        | #[trigger]
            requested_element(request, time, element) && second == became(request, element);
        match (left, right) {
            (
                Ok(Element::NormalizedSetpoint { nva: x, .. }),
                Ok(Element::NormalizedSetpoint { nva: y, .. }),
            ) => {
                crate::number::lemma_whole_is_injective(x as int, y as int);
            },
            (
                Ok(Element::ScaledSetpoint { sva: x, .. }),
                Ok(Element::ScaledSetpoint { sva: y, .. }),
            ) => {
                crate::number::lemma_whole_is_injective(x as int, y as int);
            },
            _ => {},
        }
        assert(left == right);
    }
}

/// A request that is accepted becomes one object whose fields all fit in their
/// bits, so that nothing of it is lost on the wire.
pub proof fn law_requests_are_sent_without_loss(
    request: DispatchRequest,
    time: Result<Cp56Time2a, Seq<char>>,
    outcome: Result<Option<AsduView>, Seq<char>>,
)
    requires
        request_becomes(request, time, outcome),
        time matches Ok(tag) ==> tag.valid(),
    ensures
        outcome matches Ok(Some(unit)) ==> unit.valid() && unit.objects.count() == 1,
{
    if let Ok(Some(unit)) = outcome {
        let element = choose|element: Result<Element, Seq<char>>|
            requested_element(request, time, element) && outcome == (match element {
                Ok(element) => Ok::<Option<AsduView>, Seq<char>>(
                    Some(request_unit(request, element)),
                ),
                Err(text) => Err(text),
            });
        assert(element is Ok);
        let made = element->Ok_0;
        assert(made.valid());
        assert(unit == request_unit(request, made));
        let objects = seq![
            InformationObject {
                address: if request.action is Read || request.action.control() {
                    request.ioa
                } else {
                    0
                },
                element: made,
            },
        ];
        assert(unit.objects == ObjectsView::Known(objects));
        assert(objects[0].valid());
    }
}

// ---------------------------------------------------------------------------
// Qualifiers of interrogation.
/// The cause that the answers to an interrogation have, where the qualifier is
/// one of an interrogation.
pub open spec fn interrogation_cause(qoi: u8) -> Option<u8> {
    if 20 <= qoi <= 36 {
        Some(qoi)
    } else {
        None
    }
}

pub fn interrogation_cot(qoi: u8) -> (result: Option<u8>)
    ensures
        result == interrogation_cause(qoi),
{
    if 20 <= qoi && qoi <= 36 {
        Some(qoi)
    } else {
        None
    }
}

pub open spec fn counter_interrogation_cause(rqt: u8) -> u8 {
    if 1 <= rqt <= 4 {
        (COT_COUNTER_INTERROGATION_GENERAL + rqt) as u8
    } else {
        COT_COUNTER_INTERROGATION_GENERAL
    }
}

pub fn counter_interrogation_cot(rqt: u8) -> (result: u8)
    ensures
        result == counter_interrogation_cause(rqt),
{
    if 1 <= rqt && rqt <= 4 {
        COT_COUNTER_INTERROGATION_GENERAL + rqt
    } else {
        COT_COUNTER_INTERROGATION_GENERAL
    }
}

pub open spec fn interrogated_group(qoi: u8) -> Option<u8> {
    if 21 <= qoi <= 36 {
        Some((qoi - 20) as u8)
    } else {
        None
    }
}

pub fn qoi_group(qoi: u8) -> (result: Option<u8>)
    ensures
        result == interrogated_group(qoi),
{
    if 21 <= qoi && qoi <= 36 {
        Some(qoi - 20)
    } else {
        None
    }
}

pub open spec fn general_data_cause(cot: u8) -> bool {
    20 <= cot <= 36
}

pub open spec fn counter_data_cause(cot: u8) -> bool {
    37 <= cot <= 41
}

pub fn is_general_data_cot(cot: u8) -> (result: bool)
    ensures
        result == general_data_cause(cot),
{
    20 <= cot && cot <= 36
}

pub fn is_counter_data_cot(cot: u8) -> (result: bool)
    ensures
        result == counter_data_cause(cot),
{
    37 <= cot && cot <= 41
}

// ---------------------------------------------------------------------------
// Texts for the log.
pub open spec fn type_label_text(type_id: TypeId) -> Seq<char> {
    match type_id {
        TypeId::M_SP_NA_1 => "M_SP_NA_1 单点遥信"@,
        TypeId::M_DP_NA_1 => "M_DP_NA_1 双点遥信"@,
        TypeId::M_ME_NA_1 => "M_ME_NA_1 归一化遥测"@,
        TypeId::M_ME_ND_1 => "M_ME_ND_1 无品质遥测"@,
        TypeId::M_ME_NC_1 => "M_ME_NC_1 短浮点遥测"@,
        TypeId::M_IT_NA_1 => "M_IT_NA_1 电度"@,
        TypeId::M_SP_TB_1 => "M_SP_TB_1 单点 SOE"@,
        TypeId::M_DP_TB_1 => "M_DP_TB_1 双点 SOE"@,
        TypeId::M_EI_NA_1 => "M_EI_NA_1 初始化结束"@,
        TypeId::C_SC_NA_1 => "C_SC_NA_1 单点遥控"@,
        TypeId::C_DC_NA_1 => "C_DC_NA_1 双点遥控"@,
        TypeId::C_RC_NA_1 => "C_RC_NA_1 升降控制"@,
        TypeId::C_SE_NA_1 => "C_SE_NA_1 归一化遥调"@,
        TypeId::C_SE_NB_1 => "C_SE_NB_1 标度化遥调"@,
        TypeId::C_SE_NC_1 => "C_SE_NC_1 短浮点遥调"@,
        TypeId::C_IC_NA_1 => "C_IC_NA_1 总召"@,
        TypeId::C_CI_NA_1 => "C_CI_NA_1 电度总召"@,
        TypeId::C_RD_NA_1 => "C_RD_NA_1 读命令"@,
        TypeId::C_CS_NA_1 => "C_CS_NA_1 校时"@,
        TypeId::Other(_) => "其他 ASDU"@,
    }
}

pub fn type_label(type_id: TypeId) -> (result: &'static str)
    ensures
        result@ == type_label_text(type_id),
{
    match type_id {
        TypeId::M_SP_NA_1 => "M_SP_NA_1 单点遥信",
        TypeId::M_DP_NA_1 => "M_DP_NA_1 双点遥信",
        TypeId::M_ME_NA_1 => "M_ME_NA_1 归一化遥测",
        TypeId::M_ME_ND_1 => "M_ME_ND_1 无品质遥测",
        TypeId::M_ME_NC_1 => "M_ME_NC_1 短浮点遥测",
        TypeId::M_IT_NA_1 => "M_IT_NA_1 电度",
        TypeId::M_SP_TB_1 => "M_SP_TB_1 单点 SOE",
        TypeId::M_DP_TB_1 => "M_DP_TB_1 双点 SOE",
        TypeId::M_EI_NA_1 => "M_EI_NA_1 初始化结束",
        TypeId::C_SC_NA_1 => "C_SC_NA_1 单点遥控",
        TypeId::C_DC_NA_1 => "C_DC_NA_1 双点遥控",
        TypeId::C_RC_NA_1 => "C_RC_NA_1 升降控制",
        TypeId::C_SE_NA_1 => "C_SE_NA_1 归一化遥调",
        TypeId::C_SE_NB_1 => "C_SE_NB_1 标度化遥调",
        TypeId::C_SE_NC_1 => "C_SE_NC_1 短浮点遥调",
        TypeId::C_IC_NA_1 => "C_IC_NA_1 总召",
        TypeId::C_CI_NA_1 => "C_CI_NA_1 电度总召",
        TypeId::C_RD_NA_1 => "C_RD_NA_1 读命令",
        TypeId::C_CS_NA_1 => "C_CS_NA_1 校时",
        TypeId::Other(_) => "其他 ASDU",
    }
}

pub open spec fn cot_label_text(cot: u8) -> Seq<char> {
    match cot {
        3 => "主动上送"@,
        4 => "初始化"@,
        5 => "请求"@,
        6 => "激活"@,
        7 => "激活确认"@,
        10 => "激活结束"@,
        20 => "总召响应"@,
        37 => "电度总召响应"@,
        44 => "未知类型"@,
        45 => "未知原因"@,
        46 => "未知公共地址"@,
        47 => "未知 IOA"@,
        _ => "分组/其他"@,
    }
}

pub fn cot_label(cot: u8) -> (result: &'static str)
    ensures
        result@ == cot_label_text(cot),
{
    match cot {
        3 => "主动上送",
        4 => "初始化",
        5 => "请求",
        6 => "激活",
        7 => "激活确认",
        10 => "激活结束",
        20 => "总召响应",
        37 => "电度总召响应",
        44 => "未知类型",
        45 => "未知原因",
        46 => "未知公共地址",
        47 => "未知 IOA",
        _ => "分组/其他",
    }
}

pub open spec fn spi_text(spi: Spi) -> Seq<char> {
    match spi {
        Spi::Off => "0/分"@,
        Spi::On => "1/合"@,
    }
}

pub fn spi_label(spi: Spi) -> (result: &'static str)
    ensures
        result@ == spi_text(spi),
{
    match spi {
        Spi::Off => "0/分",
        Spi::On => "1/合",
    }
}

pub open spec fn dpi_text(dpi: Dpi) -> Seq<char> {
    match dpi {
        Dpi::Indeterminate => "0/不确定"@,
        Dpi::Off => "1/分"@,
        Dpi::On => "2/合"@,
        Dpi::Invalid => "3/无效"@,
    }
}

pub fn dpi_label(dpi: Dpi) -> (result: &'static str)
    ensures
        result@ == dpi_text(dpi),
{
    match dpi {
        Dpi::Indeterminate => "0/不确定",
        Dpi::Off => "1/分",
        Dpi::On => "2/合",
        Dpi::Invalid => "3/无效",
    }
}

pub open spec fn rcs_text(rcs: Rcs) -> Seq<char> {
    match rcs {
        Rcs::Unset => "None"@,
        Rcs::Decrement => "Decrement"@,
        Rcs::Increment => "Increment"@,
        Rcs::Invalid => "Invalid"@,
    }
}

fn rcs_label(rcs: Rcs) -> (result: &'static str)
    ensures
        result@ == rcs_text(rcs),
{
    match rcs {
        Rcs::Unset => "None",
        Rcs::Decrement => "Decrement",
        Rcs::Increment => "Increment",
        Rcs::Invalid => "Invalid",
    }
}

pub open spec fn step_text(se: SelectExecute) -> Seq<char> {
    match se {
        SelectExecute::Select => "Select"@,
        SelectExecute::Execute => "Execute"@,
    }
}

fn step_label(se: SelectExecute) -> (result: &'static str)
    ensures
        result@ == step_text(se),
{
    match se {
        SelectExecute::Select => "Select",
        SelectExecute::Execute => "Execute",
    }
}

pub open spec fn time_text(time: Cp56Time2a) -> Seq<char> {
    "Cp56Time2a { ms: "@ + decimal(time.ms as nat) + ", iv: "@ + bool_text(time.iv) + ", min: "@
        + decimal(time.min as nat) + ", summer_time: "@ + bool_text(time.summer_time) + ", hour: "@
        + decimal(time.hour as nat) + ", weekday: "@ + decimal(time.weekday as nat) + ", day: "@
        + decimal(time.day as nat) + ", month: "@ + decimal(time.month as nat) + ", year: "@
        + decimal(time.year as nat) + " }"@
}

fn time_label(time: Cp56Time2a) -> (result: String)
    ensures
        result@ == time_text(time),
{
    let text = cat_number("Cp56Time2a { ms: ".to_owned(), time.ms as u64);
    let text = cat_bool(cat(text, ", iv: "), time.iv);
    let text = cat_number(cat(text, ", min: "), time.min as u64);
    let text = cat_bool(cat(text, ", summer_time: "), time.summer_time);
    let text = cat_number(cat(text, ", hour: "), time.hour as u64);
    let text = cat_number(cat(text, ", weekday: "), time.weekday as u64);
    let text = cat_number(cat(text, ", day: "), time.day as u64);
    let text = cat_number(cat(text, ", month: "), time.month as u64);
    let text = cat_number(cat(text, ", year: "), time.year as u64);
    cat(text, " }")
}

/// The flags that are set, by their names.
pub open spec fn named_flags(flags: Seq<(bool, Seq<char>)>) -> Seq<Seq<char>>
    decreases flags.len(),
{
    if flags.len() == 0 {
        Seq::empty()
    } else {
        let before = named_flags(flags.drop_last());
        if flags.last().0 {
            before.push(flags.last().1)
        } else {
            before
        }
    }
}

/// The set quality flags, or `GOOD` where none is set.
pub open spec fn quality_text(iv: bool, nt: bool, sb: bool, bl: bool, ov: bool) -> Seq<char> {
    let names = named_flags(seq![(iv, "IV"@), (nt, "NT"@), (sb, "SB"@), (bl, "BL"@), (ov, "OV"@)]);
    if names.len() == 0 {
        "GOOD"@
    } else {
        joined(names, "|"@)
    }
}

fn add_flag(names: &mut Vec<String>, set: bool, name: &str, Ghost(flags): Ghost<
    Seq<(bool, Seq<char>)>,
>)
    requires
        texts(old(names)@) == named_flags(flags),
    ensures
        texts(final(names)@) == named_flags(flags.push((set, name@))),
{
    let ghost longer = flags.push((set, name@));
    assert(longer.drop_last() =~= flags);
    let ghost before = names@;
    if set {
        names.push(name.to_owned());
        assert(texts(names@) =~= texts(before).push(name@));
    }
}

fn quality_bits(iv: bool, nt: bool, sb: bool, bl: bool, ov: bool) -> (result: String)
    ensures
        result@ == quality_text(iv, nt, sb, bl, ov),
{
    let mut names: Vec<String> = Vec::new();
    let ghost none = Seq::<(bool, Seq<char>)>::empty();
    assert(texts(names@) =~= named_flags(none));
    let ghost one = none.push((iv, "IV"@));
    let ghost two = one.push((nt, "NT"@));
    let ghost three = two.push((sb, "SB"@));
    let ghost four = three.push((bl, "BL"@));
    add_flag(&mut names, iv, "IV", Ghost(none));
    add_flag(&mut names, nt, "NT", Ghost(one));
    add_flag(&mut names, sb, "SB", Ghost(two));
    add_flag(&mut names, bl, "BL", Ghost(three));
    add_flag(&mut names, ov, "OV", Ghost(four));
    assert(four.push((ov, "OV"@)) =~= seq![
        (iv, "IV"@),
        (nt, "NT"@),
        (sb, "SB"@),
        (bl, "BL"@),
        (ov, "OV"@),
    ]);
    assert(texts(names@).len() == names@.len());
    if names.len() == 0 {
        "GOOD".to_owned()
    } else {
        join(&names, "|")
    }
}

/// The set flags of a counter reading, or `GOOD`, and its sequence number.
pub open spec fn counter_quality_text(iv: bool, ca: bool, cy: bool, sequence: u8) -> Seq<char> {
    let names = named_flags(seq![(iv, "IV"@), (ca, "CA"@), (cy, "CY"@)]);
    let shown = if names.len() == 0 {
        seq!["GOOD"@]
    } else {
        names
    };
    joined(shown.push("S"@ + decimal(sequence as nat)), "|"@)
}

fn counter_quality(iv: bool, ca: bool, cy: bool, sequence: u8) -> (result: String)
    ensures
        result@ == counter_quality_text(iv, ca, cy, sequence),
{
    let mut names: Vec<String> = Vec::new();
    let ghost none = Seq::<(bool, Seq<char>)>::empty();
    assert(texts(names@) =~= named_flags(none));
    let ghost one = none.push((iv, "IV"@));
    let ghost two = one.push((ca, "CA"@));
    add_flag(&mut names, iv, "IV", Ghost(none));
    add_flag(&mut names, ca, "CA", Ghost(one));
    add_flag(&mut names, cy, "CY", Ghost(two));
    assert(two.push((cy, "CY"@)) =~= seq![(iv, "IV"@), (ca, "CA"@), (cy, "CY"@)]);
    let ghost set = texts(names@);
    assert(set.len() == names@.len());
    if names.len() == 0 {
        names.push("GOOD".to_owned());
        assert(texts(names@) =~= seq!["GOOD"@]);
    }
    let ghost shown = texts(names@);
    names.push(cat_number("S".to_owned(), sequence as u64));
    assert(texts(names@) =~= shown.push("S"@ + decimal(sequence as nat)));
    join(&names, "|")
}

/// The rendering of the float of an object, which whoever computes with
/// floating point hands in by the position of the object.
pub open spec fn float_text(floats: Seq<Seq<char>>, index: int) -> Seq<char> {
    if 0 <= index < floats.len() {
        floats[index]
    } else {
        Seq::empty()
    }
}

fn float_label(floats: &Vec<String>, index: usize) -> (result: String)
    ensures
        result@ == float_text(texts(floats@), index as int),
{
    if index < floats.len() {
        floats[index].clone()
    } else {
        String::new()
    }
}

/// How an object is shown in a log line, where it is shown there.
pub open spec fn object_line(object: InformationObject, float: Seq<char>) -> Option<Seq<char>> {
    let prefix = "IOA"@ + decimal(object.address as nat);
    match object.element {
        Element::SinglePoint { siq } => Some(prefix + "="@ + spi_text(siq.spi)),
        Element::DoublePoint { diq } => Some(prefix + "="@ + dpi_text(diq.dpi)),
        Element::Normalized { nva, .. } => Some(prefix + "="@ + signed_decimal(nva as int)),
        Element::NormalizedNoQuality { nva } => Some(prefix + "="@ + signed_decimal(nva as int)),
        Element::ShortFloat { .. } => Some(prefix + "="@ + float),
        Element::Counter { bcr, .. } => Some(prefix + "="@ + signed_decimal(bcr as int)),
        Element::SinglePointTime { siq, time } => Some(
            prefix + "="@ + spi_text(siq.spi) + "@"@ + time_text(time),
        ),
        Element::DoublePointTime { diq, time } => Some(
            prefix + "="@ + dpi_text(diq.dpi) + "@"@ + time_text(time),
        ),
        Element::InitializationEnd { .. } => None,
        Element::SingleCommand { scs, qu } => Some(
            prefix + "="@ + spi_text(scs) + " "@ + step_text(qu.se),
        ),
        Element::DoubleCommand { dcs, qu } => Some(
            prefix + "="@ + dpi_text(dcs) + " "@ + step_text(qu.se),
        ),
        Element::RegulatingCommand { rcs, qu } => Some(
            prefix + "="@ + rcs_text(rcs) + " "@ + step_text(qu.se),
        ),
        Element::NormalizedSetpoint { nva, qos } => Some(
            prefix + "="@ + signed_decimal(nva as int) + " "@ + step_text(qos.se),
        ),
        Element::ScaledSetpoint { sva, qos } => Some(
            prefix + "="@ + signed_decimal(sva as int) + " "@ + step_text(qos.se),
        ),
        Element::FloatSetpoint { qos, .. } => Some(
            prefix + "="@ + float + " "@ + step_text(qos.se),
        ),
        Element::Interrogation { qoi } => Some("QOI="@ + decimal(qoi as nat)),
        Element::CounterInterrogation { rqt, frz } => Some(
            "QCC="@ + decimal(rqt as nat) + "/"@ + decimal(frz as nat),
        ),
        Element::Read => Some(prefix),
        Element::ClockSync { .. } => None,
    }
}

fn object_label(object: InformationObject, float: &str) -> (result: Option<String>)
    ensures
        crate::model::text_view(result) == object_line(object, float@),
{
    let prefix = cat_number("IOA".to_owned(), object.address as u64);
    match object.element {
        Element::SinglePoint { siq } => Some(cat(cat(prefix, "="), spi_label(siq.spi))),
        Element::DoublePoint { diq } => Some(cat(cat(prefix, "="), dpi_label(diq.dpi))),
        Element::Normalized { nva, .. } => Some(cat_signed(cat(prefix, "="), nva as i64)),
        Element::NormalizedNoQuality { nva } => Some(cat_signed(cat(prefix, "="), nva as i64)),
        Element::ShortFloat { .. } => Some(cat(cat(prefix, "="), float)),
        Element::Counter { bcr, .. } => Some(cat_signed(cat(prefix, "="), bcr as i64)),
        Element::SinglePointTime { siq, time } => {
            let text = cat(cat(cat(prefix, "="), spi_label(siq.spi)), "@");
            let tag = time_label(time);
            Some(cat(text, tag.as_str()))
        },
        Element::DoublePointTime { diq, time } => {
            let text = cat(cat(cat(prefix, "="), dpi_label(diq.dpi)), "@");
            let tag = time_label(time);
            Some(cat(text, tag.as_str()))
        },
        Element::InitializationEnd { .. } => None,
        Element::SingleCommand { scs, qu } => Some(
            cat(cat(cat(cat(prefix, "="), spi_label(scs)), " "), step_label(qu.se)),
        ),
        Element::DoubleCommand { dcs, qu } => Some(
            cat(cat(cat(cat(prefix, "="), dpi_label(dcs)), " "), step_label(qu.se)),
        ),
        Element::RegulatingCommand { rcs, qu } => Some(
            cat(cat(cat(cat(prefix, "="), rcs_label(rcs)), " "), step_label(qu.se)),
        ),
        Element::NormalizedSetpoint { nva, qos } => Some(
            cat(cat(cat_signed(cat(prefix, "="), nva as i64), " "), step_label(qos.se)),
        ),
        Element::ScaledSetpoint { sva, qos } => Some(
            cat(cat(cat_signed(cat(prefix, "="), sva as i64), " "), step_label(qos.se)),
        ),
        Element::FloatSetpoint { qos, .. } => Some(
            cat(cat(cat(cat(prefix, "="), float), " "), step_label(qos.se)),
        ),
        Element::Interrogation { qoi } => Some(cat_number("QOI=".to_owned(), qoi as u64)),
        Element::CounterInterrogation { rqt, frz } => Some(
            cat_number(cat(cat_number("QCC=".to_owned(), rqt as u64), "/"), frz as u64),
        ),
        Element::Read => Some(prefix),
        Element::ClockSync { .. } => None,
    }
}

/// The lines of the objects that are shown, in their order.
pub open spec fn object_lines(objects: Seq<InformationObject>, floats: Seq<Seq<char>>) -> Seq<
    Seq<char>,
>
    decreases objects.len(),
{
    if objects.len() == 0 {
        Seq::empty()
    } else {
        let before = object_lines(objects.drop_last(), floats);
        match object_line(objects.last(), float_text(floats, objects.len() - 1)) {
            Some(line) => before.push(line),
            None => before,
        }
    }
}

pub open spec fn lines_of(objects: ObjectsView, floats: Seq<Seq<char>>) -> Seq<Seq<char>> {
    match objects {
        ObjectsView::Known(objects) => object_lines(objects, floats),
        ObjectsView::Other { .. } => Seq::empty(),
    }
}

fn rows_from_objects(objects: &InformationObjects, floats: &Vec<String>) -> (result: Vec<String>)
    ensures
        texts(result@) == lines_of(objects@, texts(floats@)),
{
    let mut result: Vec<String> = Vec::new();
    match objects {
        InformationObjects::Other { .. } => {
            assert(texts(result@) =~= Seq::<Seq<char>>::empty());
        },
        InformationObjects::Known(objects) => {
            let mut index: usize = 0;
            assert(objects@.take(0) =~= Seq::<InformationObject>::empty());
            assert(texts(result@) =~= Seq::<Seq<char>>::empty());
            while index < objects.len()
                invariant
                    index <= objects.len(),
                    texts(result@) == object_lines(objects@.take(index as int), texts(floats@)),
                decreases objects.len() - index,
            {
                let ghost longer = objects@.take(index + 1);
                assert(longer.drop_last() =~= objects@.take(index as int));
                let float = float_label(floats, index);
                let line = object_label(objects[index], float.as_str());
                let ghost before = result@;
                if let Some(line) = line {
                    result.push(line);
                    assert(texts(result@) =~= texts(before).push(line@));
                }
                index += 1;
            }
            assert(objects@.take(index as int) =~= objects@);
        },
    }
    result
}

/// The first four lines.
pub open spec fn preview_text(objects: ObjectsView, floats: Seq<Seq<char>>) -> Option<Seq<char>> {
    let lines = lines_of(objects, floats);
    if lines.len() == 0 {
        None
    } else if lines.len() <= 4 {
        Some(joined(lines, ", "@))
    } else {
        Some(joined(lines.take(4), ", "@))
    }
}

fn point_preview(objects: &InformationObjects, floats: &Vec<String>) -> (result: Option<String>)
    ensures
        crate::model::text_view(result) == preview_text(objects@, texts(floats@)),
{
    let mut lines = rows_from_objects(objects, floats);
    let ghost all = texts(lines@);
    assert(all.len() == lines@.len());
    if lines.len() == 0 {
        return None;
    }
    if lines.len() > 4 {
        lines.truncate(4);
        assert(texts(lines@) =~= all.take(4));
    }
    Some(join(&lines, ", "))
}

/// The log line of a unit.
pub open spec fn summary_text(asdu: AsduView, floats: Seq<Seq<char>>) -> Seq<char> {
    let head = type_label_text(asdu.type_id) + " COT="@ + cot_label_text(asdu.cot) + " CA="@
        + decimal(asdu.address_field as nat) + " OA="@ + decimal(asdu.originator_address as nat)
        + " SQ="@ + decimal(
        if asdu.sequence {
            1
        } else {
            0
        },
    ) + " 对象="@ + decimal(asdu.objects.count());
    match preview_text(asdu.objects, floats) {
        Some(preview) => head + " · "@ + preview,
        None => head,
    }
}

pub fn asdu_summary(asdu: &Asdu, floats: &Vec<String>) -> (result: String)
    ensures
        result@ == summary_text(asdu@, texts(floats@)),
{
    let text = cat(type_label(asdu.type_id).to_owned(), " COT=");
    let text = cat(cat(text, cot_label(asdu.cot)), " CA=");
    let text = cat(cat_number(text, asdu.address_field as u64), " OA=");
    let text = cat(cat_number(text, asdu.originator_address as u64), " SQ=");
    let sequence: u64 = if asdu.sequence {
        1
    } else {
        0
    };
    let text = cat(cat_number(text, sequence), " 对象=");
    let text = cat_number(text, asdu.information_objects.len() as u64);
    match point_preview(&asdu.information_objects, floats) {
        Some(preview) => cat(cat(text, " · "), preview.as_str()),
        None => text,
    }
}

/// Objects with one address whose addresses count up beyond what three octets
/// hold.
pub open spec fn runs_over(sequence: bool, count: nat, objects: Seq<u8>, size: int) -> bool {
    let first = object_address(objects, 0, size);
    &&& sequence
    &&& size > 0
    &&& count > 1
    &&& objects.len() == count * (3 + size)
    &&& first + count > 0x100_0000
    &&& forall|i: int|
        0 <= i < count ==> #[trigger] object_address(objects, i, size) == (first + i) % 0x100_0000
}

/// The elements of the first objects, without their addresses.
pub open spec fn bare_elements(objects: Seq<u8>, count: int, size: int) -> Seq<u8>
    decreases count,
{
    if count <= 0 {
        Seq::empty()
    } else {
        bare_elements(objects, count - 1, size) + objects.subrange(
            (count - 1) * (3 + size) + 3,
            (count - 1) * (3 + size) + 3 + size,
        )
    }
}

/// How the objects of a unit are printed: each with its address, or behind the
/// first one where they run over.
pub open spec fn printed_objects(asdu: AsduView) -> Seq<char> {
    let number = asdu.type_id.number();
    let size = iec_type_size(number) as int;
    let objects = asdu.objects.octets();
    let count = asdu.objects.count();
    if iec_type_is_standard(number) && runs_over(asdu.sequence, count, objects, size) {
        iec_objects_text(number, true, objects.take(3) + bare_elements(objects, count as int, size))
    } else {
        iec_objects_text(number, false, objects)
    }
}

fn is_running_over(sequence: bool, count: usize, objects: &Vec<u8>, size: usize) -> (result: bool)
    requires
        size <= 12,
    ensures
        result == runs_over(sequence, count as nat, objects@, size as int),
{
    if !sequence || size == 0 || count <= 1 || objects.len() / (3 + size) != count || objects.len()
        % (3 + size) != 0 {
        proof {
            if sequence && size > 0 && count > 1 && objects@.len() == count * (3 + size) {
                vstd::arithmetic::div_mod::lemma_div_multiples_vanish(count as int, 3 + size);
                vstd::arithmetic::div_mod::lemma_mod_multiples_basic(count as int, 3 + size);
                assert(count * (3 + size) == (3 + size) * count) by (nonlinear_arith);
            }
        }
        return false;
    }
    proof {
        vstd::arithmetic::div_mod::lemma_fundamental_div_mod(objects@.len() as int, 3 + size);
        assert(count * (3 + size) == (3 + size) * count) by (nonlinear_arith);
        assert(3 + size <= count * (3 + size)) by (nonlinear_arith)
            requires
                count >= 1,
                size >= 0,
        ;
        assert(0 * (3 + size) == 0);
    }
    let first: u32 = take_unsigned24(objects.as_slice(), 0);
    assert(first == object_address(objects@, 0, size as int));
    if first as u128 + count as u128 <= 0x100_0000 {
        return false;
    }
    let total: usize = objects.len();
    let mut index: usize = 0;
    while index < count
        invariant
            index <= count,
            0 < size <= 12,
            total == objects@.len(),
            first == object_address(objects@, 0, size as int),
            objects@.len() == count * (3 + size),
            forall|i: int|
                0 <= i < index ==> #[trigger] object_address(objects@, i, size as int) == (first
                    + i) % 0x100_0000,
        decreases count - index,
    {
        proof {
            assert(index * (3 + size) + (3 + size) <= count * (3 + size)) by (nonlinear_arith)
                requires
                    index < count,
                    size > 0,
            ;
            assert(0 <= index * (3 + size)) by (nonlinear_arith)
                requires
                    index >= 0,
                    size > 0,
            ;
        }
        let address: u32 = take_unsigned24(objects.as_slice(), index * (3 + size));
        let expected: u128 = (first as u128 + index as u128) % 0x100_0000;
        assert(address == object_address(objects@, index as int, size as int));
        if address as u128 != expected {
            return false;
        }
        index += 1;
    }
    true
}

fn print_objects(asdu: &Asdu) -> (result: String)
    ensures
        result@ == printed_objects(asdu@),
{
    let objects = match &asdu.information_objects {
        InformationObjects::Known(objects) => encode_objects(objects),
        InformationObjects::Other { octets, .. } => copy_octets(octets.as_slice()),
    };
    let number: u8 = asdu.type_id.code();
    let count: usize = asdu.information_objects.len();
    let size: usize = type_size(number);
    if !type_is_standard(number) || !is_running_over(asdu.sequence, count, &objects, size) {
        return objects_text(number, false, objects.as_slice());
    }
    let mut short: Vec<u8> = Vec::new();
    proof {
        assert(3 + size <= count * (3 + size)) by (nonlinear_arith)
            requires
                count >= 1,
                size >= 0,
        ;
    }
    append_octets(&mut short, objects.as_slice(), 0, 3);
    assert(short@ =~= objects@.take(3) + bare_elements(objects@, 0, size as int));
    let total: usize = objects.len();
    let mut index: usize = 0;
    while index < count
        invariant
            index <= count,
            0 < size <= 12,
            total == objects@.len(),
            objects@.len() == count * (3 + size),
            short@ == objects@.take(3) + bare_elements(objects@, index as int, size as int),
        decreases count - index,
    {
        proof {
            assert(index * (3 + size) + (3 + size) <= count * (3 + size)) by (nonlinear_arith)
                requires
                    index < count,
                    size > 0,
            ;
            assert(0 <= index * (3 + size)) by (nonlinear_arith)
                requires
                    index >= 0,
                    size > 0,
            ;
        }
        let offset: usize = index * (3 + size);
        append_octets(&mut short, objects.as_slice(), offset + 3, offset + 3 + size);
        index += 1;
        assert(short@ =~= objects@.take(3) + bare_elements(objects@, index as int, size as int));
    }
    objects_text(number, true, short.as_slice())
}

/// A detail line for each object that has one, else one that prints them all.
pub open spec fn object_detail_texts(asdu: AsduView, floats: Seq<Seq<char>>) -> Seq<Seq<char>> {
    let lines = lines_of(asdu.objects, floats);
    if lines.len() == 0 {
        seq!["对象: "@ + printed_objects(asdu)]
    } else {
        Seq::new(
            lines.len(),
            |i: int| "对象 #"@ + decimal(i as nat) + ": "@ + lines[i],
        )
    }
}

fn object_details(asdu: &Asdu, floats: &Vec<String>) -> (result: Vec<String>)
    ensures
        texts(result@) == object_detail_texts(asdu@, texts(floats@)),
{
    let lines = rows_from_objects(&asdu.information_objects, floats);
    let ghost all = texts(lines@);
    assert(all.len() == lines@.len());
    let mut result: Vec<String> = Vec::new();
    if lines.len() == 0 {
        let printed = print_objects(asdu);
        result.push(cat("对象: ".to_owned(), printed.as_str()));
        assert(texts(result@) =~= object_detail_texts(asdu@, texts(floats@)));
        return result;
    }
    let mut index: usize = 0;
    while index < lines.len()
        invariant
            index <= lines.len(),
            result@.len() == index,
            all == texts(lines@),
            forall|i: int|
                0 <= i < index ==> (#[trigger] result@[i])@ == "对象 #"@ + decimal(i as nat) + ": "@
                    + all[i],
        decreases lines.len() - index,
    {
        let text = cat(cat_number("对象 #".to_owned(), index as u64), ": ");
        result.push(cat(text, lines[index].as_str()));
        index += 1;
    }
    assert(texts(result@) =~= object_detail_texts(asdu@, texts(floats@)));
    result
}

/// The detail lines of a unit.
pub open spec fn detail_texts(asdu: AsduView, floats: Seq<Seq<char>>) -> Seq<Seq<char>> {
    seq![
        "TypeID: "@ + iec_type_name(asdu.type_id.number()) + " ("@ + decimal(
            asdu.type_id.number() as nat,
        ) + ")"@,
        "COT: "@ + iec_cot_name(asdu.cot) + " ("@ + decimal(asdu.cot as nat) + ")"@,
        "CA="@ + decimal(asdu.address_field as nat) + " OA="@ + decimal(
            asdu.originator_address as nat,
        ) + " SQ="@ + bool_text(asdu.sequence) + " Test="@ + bool_text(asdu.test) + " Negative="@
            + bool_text(asdu.negative),
    ] + object_detail_texts(asdu, floats)
}

pub fn asdu_details(asdu: &Asdu, floats: &Vec<String>) -> (result: Vec<String>)
    requires
        asdu.cot < 64,
    ensures
        texts(result@) == detail_texts(asdu@, texts(floats@)),
{
    let name = type_mnemonic(asdu.type_id.code());
    let first = cat(cat("TypeID: ".to_owned(), name.as_str()), " (");
    let first = cat(cat_number(first, asdu.type_id.code() as u64), ")");
    let cause = cot_name(asdu.cot);
    let second = cat(cat("COT: ".to_owned(), cause.as_str()), " (");
    let second = cat(cat_number(second, asdu.cot as u64), ")");
    let third = cat(cat_number("CA=".to_owned(), asdu.address_field as u64), " OA=");
    let third = cat(cat_number(third, asdu.originator_address as u64), " SQ=");
    let third = cat(cat_bool(third, asdu.sequence), " Test=");
    let third = cat(cat_bool(third, asdu.test), " Negative=");
    let third = cat_bool(third, asdu.negative);
    let mut result: Vec<String> = vec![first, second, third];
    let ghost head = texts(result@);
    let mut rest = object_details(asdu, floats);
    let ghost tail = texts(rest@);
    result.append(&mut rest);
    assert(texts(result@) =~= head + tail);
    result
}

/// The header fields of a unit, and the addresses of its known objects.
pub open spec fn meta_of(asdu: AsduView) -> MetaView {
    MetaView {
        type_id: iec_type_name(asdu.type_id.number()),
        cot: iec_cot_name(asdu.cot),
        common_address: asdu.address_field,
        originator_address: asdu.originator_address,
        sequence: asdu.sequence,
        test: asdu.test,
        negative: asdu.negative,
        ioas: match asdu.objects {
            ObjectsView::Known(objects) => objects.map_values(
                |object: InformationObject| object.address,
            ),
            ObjectsView::Other { .. } => Seq::empty(),
        },
    }
}

pub fn protocol_meta(asdu: &Asdu) -> (result: ProtocolMeta)
    requires
        asdu.cot < 64,
    ensures
        result@ == meta_of(asdu@),
        !(TypeId::of(asdu.type_id.number()) is Other) ==> result.type_id@ == TypeId::of(
            asdu.type_id.number(),
        ).mnemonic(),
{
    let mut ioas: Vec<u32> = Vec::new();
    if let InformationObjects::Known(objects) = &asdu.information_objects {
        let mut index: usize = 0;
        while index < objects.len()
            invariant
                index <= objects.len(),
                ioas@.len() == index,
                forall|i: int| 0 <= i < index ==> ioas@[i] == objects@[i].address,
            decreases objects.len() - index,
        {
            ioas.push(objects[index].address);
            index += 1;
        }
    }
    let result = ProtocolMeta {
        type_id: type_mnemonic(asdu.type_id.code()),
        cot: cot_name(asdu.cot),
        common_address: asdu.address_field,
        originator_address: asdu.originator_address,
        sequence: asdu.sequence,
        test: asdu.test,
        negative: asdu.negative,
        ioas,
    };
    assert(result@.ioas =~= meta_of(asdu@).ioas);
    result
}

// ---------------------------------------------------------------------------
// Rows of received values.
/// The row of a received value, where the element is a value.
pub open spec fn value_row(object: InformationObject, float: Seq<char>, updated: u64) -> Option<
    PointRow,
> {
    match object.element {
        Element::SinglePoint { siq } => Some(
            received_row(
                object.address,
                "M_SP_NA_1"@,
                "单点"@,
                spi_text(siq.spi),
                quality_text(siq.iv, siq.nt, siq.sb, siq.bl, false),
                updated,
            ),
        ),
        Element::DoublePoint { diq } => Some(
            received_row(
                object.address,
                "M_DP_NA_1"@,
                "双点"@,
                dpi_text(diq.dpi),
                quality_text(diq.iv, diq.nt, diq.sb, diq.bl, false),
                updated,
            ),
        ),
        Element::ShortFloat { qds, .. } => Some(
            received_row(
                object.address,
                "M_ME_NC_1"@,
                "短浮点遥测"@,
                float,
                quality_text(qds.iv, qds.nt, qds.sb, qds.bl, qds.ov),
                updated,
            ),
        ),
        Element::Normalized { nva, qds } => Some(
            received_row(
                object.address,
                "M_ME_NA_1"@,
                "归一化遥测"@,
                signed_decimal(nva as int),
                quality_text(qds.iv, qds.nt, qds.sb, qds.bl, qds.ov),
                updated,
            ),
        ),
        Element::NormalizedNoQuality { nva } => Some(
            received_row(
                object.address,
                "M_ME_ND_1"@,
                "无品质遥测"@,
                signed_decimal(nva as int),
                "无品质位"@,
                updated,
            ),
        ),
        Element::Counter { bcr, sqd } => Some(
            received_row(
                object.address,
                "M_IT_NA_1"@,
                "电度"@,
                signed_decimal(bcr as int),
                counter_quality_text(sqd.iv, sqd.ca, sqd.cy, sqd.seq),
                updated,
            ),
        ),
        Element::SinglePointTime { siq, .. } => Some(
            received_row(
                object.address,
                "M_SP_TB_1"@,
                "单点 SOE"@,
                spi_text(siq.spi),
                quality_text(siq.iv, siq.nt, siq.sb, siq.bl, false),
                updated,
            ),
        ),
        Element::DoublePointTime { diq, .. } => Some(
            received_row(
                object.address,
                "M_DP_TB_1"@,
                "双点 SOE"@,
                dpi_text(diq.dpi),
                quality_text(diq.iv, diq.nt, diq.sb, diq.bl, false),
                updated,
            ),
        ),
        _ => None,
    }
}

pub open spec fn received_row(
    ioa: u32,
    type_id: Seq<char>,
    kind_name: Seq<char>,
    value: Seq<char>,
    quality: Seq<char>,
    updated: u64,
) -> PointRow {
    PointRow {
        ioa,
        name: Seq::empty(),
        type_id,
        kind_name,
        value: Some(value),
        quality,
        updated_ms: Some(updated),
        configured: false,
    }
}

fn row(
    ioa: u32,
    type_id: &str,
    kind_name: &str,
    value: String,
    quality: String,
    updated: u64,
) -> (result: PointView)
    ensures
        result@ == received_row(ioa, type_id@, kind_name@, value@, quality@, updated),
{
    PointView {
        ioa,
        name: String::new(),
        type_id: type_id.to_owned(),
        kind_name: kind_name.to_owned(),
        value: Some(value),
        quality,
        updated_ms: Some(updated),
        configured: false,
    }
}

pub open spec fn row_view(row: Option<PointView>) -> Option<PointRow> {
    match row {
        Some(row) => Some(row@),
        None => None,
    }
}

fn object_row(object: InformationObject, float: String, updated: u64) -> (result: Option<PointView>)
    ensures
        row_view(result) == value_row(object, float@, updated),
{
    let ioa: u32 = object.address;
    match object.element {
        Element::SinglePoint { siq } => Some(
            row(
                ioa,
                "M_SP_NA_1",
                "单点",
                spi_label(siq.spi).to_owned(),
                quality_bits(siq.iv, siq.nt, siq.sb, siq.bl, false),
                updated,
            ),
        ),
        Element::DoublePoint { diq } => Some(
            row(
                ioa,
                "M_DP_NA_1",
                "双点",
                dpi_label(diq.dpi).to_owned(),
                quality_bits(diq.iv, diq.nt, diq.sb, diq.bl, false),
                updated,
            ),
        ),
        Element::ShortFloat { qds, .. } => Some(
            row(
                ioa,
                "M_ME_NC_1",
                "短浮点遥测",
                float,
                quality_bits(qds.iv, qds.nt, qds.sb, qds.bl, qds.ov),
                updated,
            ),
        ),
        Element::Normalized { nva, qds } => Some(
            row(
                ioa,
                "M_ME_NA_1",
                "归一化遥测",
                number_label(nva as i64),
                quality_bits(qds.iv, qds.nt, qds.sb, qds.bl, qds.ov),
                updated,
            ),
        ),
        Element::NormalizedNoQuality { nva } => Some(
            row(
                ioa,
                "M_ME_ND_1",
                "无品质遥测",
                number_label(nva as i64),
                "无品质位".to_owned(),
                updated,
            ),
        ),
        Element::Counter { bcr, sqd } => Some(
            row(
                ioa,
                "M_IT_NA_1",
                "电度",
                number_label(bcr as i64),
                counter_quality(sqd.iv, sqd.ca, sqd.cy, sqd.seq),
                updated,
            ),
        ),
        Element::SinglePointTime { siq, .. } => Some(
            row(
                ioa,
                "M_SP_TB_1",
                "单点 SOE",
                spi_label(siq.spi).to_owned(),
                quality_bits(siq.iv, siq.nt, siq.sb, siq.bl, false),
                updated,
            ),
        ),
        Element::DoublePointTime { diq, .. } => Some(
            row(
                ioa,
                "M_DP_TB_1",
                "双点 SOE",
                dpi_label(diq.dpi).to_owned(),
                quality_bits(diq.iv, diq.nt, diq.sb, diq.bl, false),
                updated,
            ),
        ),
        _ => None,
    }
}

fn number_label(value: i64) -> (result: String)
    ensures
        result@ == signed_decimal(value as int),
{
    let text = cat_signed(String::new(), value);
    assert(text@ =~= signed_decimal(value as int));
    text
}

/// The rows of the values among objects, in their order.
pub open spec fn value_rows(
    objects: Seq<InformationObject>,
    floats: Seq<Seq<char>>,
    updated: u64,
) -> Seq<PointRow>
    decreases objects.len(),
{
    if objects.len() == 0 {
        Seq::empty()
    } else {
        let before = value_rows(objects.drop_last(), floats, updated);
        match value_row(objects.last(), float_text(floats, objects.len() - 1), updated) {
            Some(row) => before.push(row),
            None => before,
        }
    }
}

/// The rows of the values in a unit.
pub open spec fn unit_rows(asdu: AsduView, floats: Seq<Seq<char>>, updated: u64) -> Seq<PointRow> {
    match asdu.objects {
        ObjectsView::Known(objects) => value_rows(objects, floats, updated),
        ObjectsView::Other { .. } => Seq::empty(),
    }
}

/// The rows of the values in a unit, as of a given moment.
pub fn rows_at(asdu: &Asdu, floats: &Vec<String>, updated: u64) -> (result: Vec<PointView>)
    ensures
        rows(result@) == unit_rows(asdu@, texts(floats@), updated),
{
    let mut result: Vec<PointView> = Vec::new();
    assert(rows(result@) =~= Seq::<PointRow>::empty());
    if let InformationObjects::Known(objects) = &asdu.information_objects {
        let mut index: usize = 0;
        assert(objects@.take(0) =~= Seq::<InformationObject>::empty());
        while index < objects.len()
            invariant
                index <= objects.len(),
                rows(result@) == value_rows(
                    objects@.take(index as int),
                    texts(floats@),
                    updated,
                ),
            decreases objects.len() - index,
        {
            let ghost longer = objects@.take(index + 1);
            assert(longer.drop_last() =~= objects@.take(index as int));
            let float = float_label(floats, index);
            let ghost before = result@;
            if let Some(row) = object_row(objects[index], float, updated) {
                result.push(row);
                assert(rows(result@) =~= rows(before).push(row@));
            }
            index += 1;
        }
        assert(objects@.take(index as int) =~= objects@);
    }
    result
}

/// The rows of the values in a unit, as of the present moment.
pub fn rows_from_asdu(asdu: &Asdu, floats: &Vec<String>) -> (result: Vec<PointView>)
    ensures
        exists|updated: u64|
            rows(result@) == #[trigger] unit_rows(asdu@, texts(floats@), updated),
{
    rows_at(asdu, floats, now_millis())
}

// ---------------------------------------------------------------------------
// Laws of requests, time tags and rows.
/// A request is accepted exactly where its fields are: a station that is not
/// zero, an address of three octets, the qualifiers in their ranges and a value
/// that the command can carry. A clock command is accepted where the moment has a
/// time tag.
pub proof fn law_requests_are_accepted_by_their_fields(
    request: DispatchRequest,
    outcome: Result<Option<AsduView>, Seq<char>>,
)
    requires
        request_may_become(request, outcome),
    ensures
        request.action is StartDt || request.action is StopDt || request.action is TestFr
            ==> outcome == Ok::<Option<AsduView>, Seq<char>>(None),
        request.action is GeneralInterrogation ==> ((outcome is Ok) <==> (request.common_address > 0
            && 20 <= request.qoi <= 36)),
        request.action is CounterInterrogation ==> ((outcome is Ok) <==> (request.common_address > 0
            && 1 <= request.qcc_request <= 5 && request.qcc_freeze <= 3)),
        request.action is Read ==> ((outcome is Ok) <==> (request.common_address > 0 && request.ioa
            <= 0xFF_FFFF)),
        request.action is SingleControl || request.action is DoubleControl ==> ((outcome is Ok)
            <==> (request.common_address > 0 && request.ioa <= 0xFF_FFFF && request.qualifier <= 31
            && (request.value.equals_integer(0) || request.value.equals_integer(1)))),
        request.action is RegulatingStep ==> ((outcome is Ok) <==> (request.common_address > 0
            && request.ioa <= 0xFF_FFFF && request.qualifier <= 31 && (
        request.value.equals_integer(-1) || request.value.equals_integer(0)
            || request.value.equals_integer(1)))),
        request.action is NormalizedSetpoint || request.action is ScaledSetpoint ==> ((outcome
            is Ok) <==> (request.common_address > 0 && request.ioa <= 0xFF_FFFF
            && request.qualifier <= 127 && exists|number: int|
            -0x8000 <= number <= 0x7FFF && #[trigger] request.value.equals_integer(number))),
        request.action is FloatSetpoint ==> ((outcome is Ok) <==> (request.common_address > 0
            && request.ioa <= 0xFF_FFFF && request.qualifier <= 127 && request.value.finite()
            && -crate::number::double_value(0x47EF_FFFF_E000_0000) <= request.value.value()
            <= crate::number::double_value(0x47EF_FFFF_E000_0000))),
        request.action is ClockSync && request.common_address == 0 ==> outcome is Err,
{
    let low = 0xC7EF_FFFF_E000_0000u64;
    let high = 0x47EF_FFFF_E000_0000u64;
    assert(SINGLE_MAX + DOUBLE_SIGN == low);
    assert(crate::number::double_value(low) == -crate::number::double_value(high)) by {
        assert(low as nat % (DOUBLE_SIGN as nat) == high as nat % (DOUBLE_SIGN as nat));
    }
    if request.action is NormalizedSetpoint || request.action is ScaledSetpoint {
        match outcome {
            Ok(Some(unit)) => {
                let element = unit.objects->Known_0[0].element;
                match element {
                    Element::NormalizedSetpoint { nva, .. } => {
                        assert(request.value.equals_integer(nva as int));
                    },
                    Element::ScaledSetpoint { sva, .. } => {
                        assert(request.value.equals_integer(sva as int));
                    },
                    _ => {},
                }
            },
            _ => {},
        }
    }
}

/// A request that is accepted becomes one unit that says what was asked: of the
/// station, in the name of the originator and under the test flag that were
/// given; a read as a request and everything else as an activation; with one
/// object, at the address of the point where the command is for a point, whose
/// element holds the value, the step and the qualifier.
pub proof fn law_requests_say_what_was_asked(
    request: DispatchRequest,
    outcome: Result<Option<AsduView>, Seq<char>>,
)
    requires
        request_may_become(request, outcome),
        outcome matches Ok(Some(_)),
    ensures
        ({
            let unit = outcome->Ok_0->0;
            let point = request.action is Read || request.action is SingleControl || request.action
                is DoubleControl || request.action is RegulatingStep || request.action
                is NormalizedSetpoint || request.action is ScaledSetpoint || request.action
                is FloatSetpoint;
            let fits = |qualifier: Qualifier|
                qualifier.value == request.qualifier && ((qualifier.se is Select) <==> (
                request.phase is Select));
            &&& unit.address_field == request.common_address
            &&& unit.originator_address == request.originator_address
            &&& unit.test == request.test
            &&& !unit.negative && !unit.sequence
            &&& unit.cot == (if request.action is Read {
                5u8
            } else {
                6u8
            })
            &&& unit.objects matches ObjectsView::Known(objects) && objects.len() == 1
                && objects[0].address == (if point {
                request.ioa
            } else {
                0
            }) && match objects[0].element {
                Element::Interrogation { qoi } => request.action is GeneralInterrogation && qoi
                    == request.qoi && unit.type_id is C_IC_NA_1,
                Element::CounterInterrogation { rqt, frz } => request.action
                    is CounterInterrogation && rqt == request.qcc_request && frz
                    == request.qcc_freeze && unit.type_id is C_CI_NA_1,
                Element::ClockSync { time } => request.action is ClockSync && unit.type_id
                    is C_CS_NA_1 && !time.iv,
                Element::Read => request.action is Read && unit.type_id is C_RD_NA_1,
                Element::SingleCommand { scs, qu } => request.action is SingleControl
                    && unit.type_id is C_SC_NA_1 && fits(qu) && ((scs is On)
                    <==> request.value.equals_integer(1)) && ((scs is Off)
                    <==> request.value.equals_integer(0)),
                Element::DoubleCommand { dcs, qu } => request.action is DoubleControl
                    && unit.type_id is C_DC_NA_1 && fits(qu) && ((dcs is On)
                    <==> request.value.equals_integer(1)) && ((dcs is Off)
                    <==> request.value.equals_integer(0)),
                Element::RegulatingCommand { rcs, qu } => request.action is RegulatingStep
                    && unit.type_id is C_RC_NA_1 && fits(qu) && ((rcs is Increment)
                    <==> request.value.equals_integer(1)) && ((rcs is Decrement)
                    <==> request.value.equals_integer(-1)) && ((rcs is Unset)
                    <==> request.value.equals_integer(0)),
                Element::NormalizedSetpoint { nva, qos } => request.action is NormalizedSetpoint
                    && unit.type_id is C_SE_NA_1 && fits(qos) && request.value.equals_integer(
                    nva as int,
                ),
                Element::ScaledSetpoint { sva, qos } => request.action is ScaledSetpoint
                    && unit.type_id is C_SE_NB_1 && fits(qos) && request.value.equals_integer(
                    sva as int,
                ),
                Element::FloatSetpoint { bits, qos } => request.action is FloatSetpoint
                    && unit.type_id is C_SE_NC_1 && fits(qos) && bits == request.value.single,
                _ => false,
            }
        }),
{
    crate::number::lemma_whole_is_injective(0, 1);
    crate::number::lemma_whole_is_injective(0, -1);
    crate::number::lemma_whole_is_injective(1, -1);
}

/// A time tag is the local time it is made of, to the millisecond, with the year
/// within the century, and it is never marked as invalid. Years outside of the
/// century have none. Within a leap second it stands still.
pub proof fn law_time_tags_are_the_local_time(value: LocalTime)
    requires
        value.in_range(),
    ensures
        (time_outcome(value) is Ok) <==> 2000 <= value.year <= 2099,
        time_outcome(value) matches Ok(tag) ==> {
            &&& tag.valid()
            &&& 2000 + tag.year == value.year
            &&& tag.month == value.month
            &&& tag.day == value.day
            &&& tag.hour == value.hour
            &&& tag.min == value.minute
            &&& value.subsec_millis < 1000 ==> tag.ms / 1000 == value.second && tag.ms % 1000
                == value.subsec_millis
            &&& tag.weekday == value.weekday
            &&& !tag.iv && !tag.summer_time
        },
{
}

/// A clock command carries the moment that it names, as the zone of the machine
/// shows it: read back, the tag is that moment less than a day ahead or behind,
/// with its milliseconds.
pub proof fn law_clock_commands_carry_their_moment(
    request: DispatchRequest,
    millis: u64,
    outcome: Result<Option<AsduView>, Seq<char>>,
)
    requires
        request.action is ClockSync,
        request.clock_time_ms == Some(millis),
        request_may_become(request, outcome),
        outcome matches Ok(Some(_)),
    ensures
        exists|value: LocalTime|
            value.in_range() && -86_400 < #[trigger] value.seconds() - (millis as int) / 1000
                < 86_400 && value.subsec_millis == millis % 1000 && (
            outcome->Ok_0->0.objects matches ObjectsView::Known(objects) && (objects[0].element
                matches Element::ClockSync { time } && 2000 + time.year == value.year && time.month
                == value.month && time.day == value.day && time.hour == value.hour && time.min
                == value.minute && time.ms == value.second * 1000 + value.subsec_millis)),
{
    let time = choose|time: Result<Cp56Time2a, Seq<char>>|
        time_for(request, time) && (time matches Ok(tag) ==> tag.valid()) && #[trigger]
            request_becomes(request, time, outcome);
    assert(tag_of_moment(millis, time));
    let value = choose|value: LocalTime|
        value.stands_for(millis as int) && time == #[trigger] time_outcome(value);
    assert(value.subsec_millis < 1000);
    let seconds = value.seconds();
    assert(-86_400 < seconds - (millis as int) / 1000 < 86_400);
}

/// The values of an interrogation have the cause that belongs to its qualifier:
/// all points the general one and each group its own. A group is asked for by its
/// number above the qualifier for all.
pub proof fn law_interrogations_have_their_causes(qoi: u8, rqt: u8)
    ensures
        (interrogation_cause(qoi) is Some) <==> 20 <= qoi <= 36,
        interrogation_cause(qoi) matches Some(cot) ==> cot == qoi,
        interrogated_group(qoi) matches Some(group) ==> 1 <= group <= 16 && 20 + group == qoi,
        20 < qoi <= 36 ==> interrogated_group(qoi) is Some,
        qoi == 20 ==> interrogated_group(qoi) is None,
        1 <= rqt <= 4 ==> counter_interrogation_cause(rqt) == 37 + rqt,
        rqt == 5 ==> counter_interrogation_cause(rqt) == 37,
{
}

/// A received value gets a row of its address and of the name of its type, as
/// the element holds it: a state by its number and name, an integer in decimal, a
/// float as it is rendered. Its quality reads as good exactly where no flag is
/// set. What is no value gets no row.
pub proof fn law_received_values_get_rows(object: InformationObject, float: Seq<char>, updated: u64)
    ensures
        ({
            let kind = object.element.kind();
            let valued = kind is M_SP_NA_1 || kind is M_DP_NA_1 || kind is M_ME_NA_1 || kind
                is M_ME_ND_1 || kind is M_ME_NC_1 || kind is M_IT_NA_1 || kind is M_SP_TB_1 || kind
                is M_DP_TB_1;
            let row = value_row(object, float, updated);
            &&& (row is Some) <==> valued
            &&& row matches Some(row) ==> {
                &&& row.ioa == object.address
                &&& row.type_id == kind.mnemonic()
                &&& row.updated_ms == Some(updated)
                &&& !row.configured
                &&& row.value == Some(
                    match object.element {
                        Element::SinglePoint { siq } | Element::SinglePointTime { siq, .. } =>
                            if siq.spi is On {
                                "1/合"@
                            } else {
                                "0/分"@
                            },
                        Element::DoublePoint { diq } | Element::DoublePointTime { diq, .. } =>
                            match diq.dpi {
                                Dpi::Indeterminate => "0/不确定"@,
                                Dpi::Off => "1/分"@,
                                Dpi::On => "2/合"@,
                                Dpi::Invalid => "3/无效"@,
                            },
                        Element::Normalized { nva, .. } => signed_decimal(nva as int),
                        Element::NormalizedNoQuality { nva } => signed_decimal(nva as int),
                        Element::Counter { bcr, .. } => signed_decimal(bcr as int),
                        _ => float,
                    },
                )
                &&& match object.element {
                    Element::SinglePoint { siq } | Element::SinglePointTime { siq, .. } => (
                    row.quality == "GOOD"@) <==> !(siq.iv || siq.nt || siq.sb || siq.bl),
                    Element::DoublePoint { diq } | Element::DoublePointTime { diq, .. } => (
                    row.quality == "GOOD"@) <==> !(diq.iv || diq.nt || diq.sb || diq.bl),
                    Element::Normalized { qds, .. } | Element::ShortFloat { qds, .. } => (
                    row.quality == "GOOD"@) <==> !(qds.iv || qds.nt || qds.sb || qds.bl || qds.ov),
                    _ => true,
                }
            }
        }),
{
    match object.element {
        Element::SinglePoint { siq } | Element::SinglePointTime { siq, .. } => {
            law_quality_names_the_flags(siq.iv, siq.nt, siq.sb, siq.bl, false);
        },
        Element::DoublePoint { diq } | Element::DoublePointTime { diq, .. } => {
            law_quality_names_the_flags(diq.iv, diq.nt, diq.sb, diq.bl, false);
        },
        Element::Normalized { qds, .. } | Element::ShortFloat { qds, .. } => {
            law_quality_names_the_flags(qds.iv, qds.nt, qds.sb, qds.bl, qds.ov);
        },
        _ => {},
    }
}

/// A quality reads as good where no flag is set, and else begins with the first
/// flag that is.
pub proof fn law_quality_names_the_flags(iv: bool, nt: bool, sb: bool, bl: bool, ov: bool)
    ensures
        ({
            let text = quality_text(iv, nt, sb, bl, ov);
            let first = if iv {
                "IV"@
            } else if nt {
                "NT"@
            } else if sb {
                "SB"@
            } else if bl {
                "BL"@
            } else {
                "OV"@
            };
            &&& !(iv || nt || sb || bl || ov) ==> text == "GOOD"@
            &&& (iv || nt || sb || bl || ov) ==> text.len() >= 2 && text.take(2) == first && text
                != "GOOD"@
        }),
{
    reveal_strlit("IV");
    reveal_strlit("NT");
    reveal_strlit("SB");
    reveal_strlit("BL");
    reveal_strlit("OV");
    reveal_strlit("GOOD");
    reveal_with_fuel(named_flags, 6);
    let flags = seq![(iv, "IV"@), (nt, "NT"@), (sb, "SB"@), (bl, "BL"@), (ov, "OV"@)];
    let four = seq![(iv, "IV"@), (nt, "NT"@), (sb, "SB"@), (bl, "BL"@)];
    let three = seq![(iv, "IV"@), (nt, "NT"@), (sb, "SB"@)];
    let two = seq![(iv, "IV"@), (nt, "NT"@)];
    let one = seq![(iv, "IV"@)];
    assert(flags.drop_last() =~= four);
    assert(four.drop_last() =~= three);
    assert(three.drop_last() =~= two);
    assert(two.drop_last() =~= one);
    assert(one.drop_last() =~= Seq::<(bool, Seq<char>)>::empty());
    let names = named_flags(flags);
    if names.len() > 0 {
        lemma_joined_begins(names, "|"@);
        let text = quality_text(iv, nt, sb, bl, ov);
        assert(text.take(2)[0] == text[0]);
        assert(text.take(2) =~= names[0]);
        assert(names[0][0] != 'G');
    }
}

/// Joined texts begin with the first of them.
proof fn lemma_joined_begins(names: Seq<Seq<char>>, between: Seq<char>)
    requires
        names.len() > 0,
    ensures
        joined(names, between).len() >= names[0].len(),
        joined(names, between).take(names[0].len() as int) == names[0],
    decreases names.len(),
{
    if names.len() > 1 {
        lemma_joined_begins(names.drop_last(), between);
        let before = joined(names.drop_last(), between);
        assert(joined(names, between).take(names[0].len() as int) =~= before.take(
            names[0].len() as int,
        ));
    } else {
        assert(joined(names, between).take(names[0].len() as int) =~= names[0]);
    }
}

/// Every value of a unit is among its rows, and no row stands for anything else.
pub proof fn law_every_received_value_has_its_row(
    objects: Seq<InformationObject>,
    floats: Seq<Seq<char>>,
    updated: u64,
    i: int,
)
    requires
        0 <= i < objects.len(),
        forall|j: int|
            0 <= j < objects.len() ==> value_row(
                #[trigger] objects[j],
                float_text(floats, j),
                updated,
            ) is Some,
    ensures
        value_rows(objects, floats, updated).len() == objects.len(),
        Some(value_rows(objects, floats, updated)[i]) == value_row(
            objects[i],
            float_text(floats, i),
            updated,
        ),
    decreases objects.len(),
{
    let fewer = objects.drop_last();
    assert(value_row(
        objects[objects.len() - 1],
        float_text(floats, objects.len() - 1),
        updated,
    ) is Some);
    if fewer.len() > 0 {
        assert forall|j: int| 0 <= j < fewer.len() implies value_row(
            #[trigger] fewer[j],
            float_text(floats, j),
            updated,
        ) is Some by {
            assert(fewer[j] == objects[j]);
        }
        let place = if i < fewer.len() {
            i
        } else {
            0
        };
        law_every_received_value_has_its_row(fewer, floats, updated, place);
    } else {
        assert(value_rows(fewer, floats, updated) =~= Seq::<PointRow>::empty());
    }
}

/// An answer is the request again, objects included, with a cause, a sign and the
/// address of the station that answers.
pub proof fn law_answers_mirror_the_request(request: AsduView, cot: u8, negative: bool, own: u16)
    ensures
        ({
            let answer = confirmed(request, cot, negative, own);
            &&& answer.cot == cot && answer.negative == negative && answer.address_field == own
            &&& answer.type_id == request.type_id && answer.objects == request.objects
            &&& answer.originator_address == request.originator_address && answer.test
                == request.test && answer.sequence == request.sequence
        }),
{
}

/// A quality lists every flag that is set, by its name and in the order of the
/// bits, and says that it is good where none is. That of a counter also has its
/// number.
pub proof fn law_qualities_list_every_flag(
    iv: bool,
    nt: bool,
    sb: bool,
    bl: bool,
    ov: bool,
    number: u8,
)
    ensures
        ({
            let names = (if iv {
                seq!["IV"@]
            } else {
                Seq::empty()
            }) + (if nt {
                seq!["NT"@]
            } else {
                Seq::empty()
            }) + (if sb {
                seq!["SB"@]
            } else {
                Seq::empty()
            }) + (if bl {
                seq!["BL"@]
            } else {
                Seq::empty()
            }) + (if ov {
                seq!["OV"@]
            } else {
                Seq::empty()
            });
            quality_text(iv, nt, sb, bl, ov) == (if names.len() == 0 {
                "GOOD"@
            } else {
                joined(names, "|"@)
            })
        }),
        ({
            let names = (if iv {
                seq!["IV"@]
            } else {
                Seq::empty()
            }) + (if nt {
                seq!["CA"@]
            } else {
                Seq::empty()
            }) + (if sb {
                seq!["CY"@]
            } else {
                Seq::empty()
            });
            counter_quality_text(iv, nt, sb, number) == joined(
                (if names.len() == 0 {
                    seq!["GOOD"@]
                } else {
                    names
                }) + seq!["S"@ + decimal(number as nat)],
                "|"@,
            )
        }),
{
    reveal_with_fuel(named_flags, 6);
    let flags = seq![(iv, "IV"@), (nt, "NT"@), (sb, "SB"@), (bl, "BL"@), (ov, "OV"@)];
    let four = seq![(iv, "IV"@), (nt, "NT"@), (sb, "SB"@), (bl, "BL"@)];
    let three = seq![(iv, "IV"@), (nt, "NT"@), (sb, "SB"@)];
    let two = seq![(iv, "IV"@), (nt, "NT"@)];
    let one = seq![(iv, "IV"@)];
    let first = if iv {
        seq!["IV"@]
    } else {
        Seq::empty()
    };
    let none = Seq::<Seq<char>>::empty();
    assert(flags.drop_last() =~= four);
    assert(four.drop_last() =~= three);
    assert(three.drop_last() =~= two);
    assert(two.drop_last() =~= one);
    assert(one.drop_last() =~= Seq::<(bool, Seq<char>)>::empty());
    let second = first + (if nt {
        seq!["NT"@]
    } else {
        none
    });
    let third = second + (if sb {
        seq!["SB"@]
    } else {
        none
    });
    let fourth = third + (if bl {
        seq!["BL"@]
    } else {
        none
    });
    let fifth = fourth + (if ov {
        seq!["OV"@]
    } else {
        none
    });
    assert(named_flags(one) =~= first);
    assert(named_flags(two) =~= second);
    assert(named_flags(three) =~= third);
    assert(named_flags(four) =~= fourth);
    assert(named_flags(flags) =~= fifth);
    let counted = seq![(iv, "IV"@), (nt, "CA"@), (sb, "CY"@)];
    let adjusted = seq![(iv, "IV"@), (nt, "CA"@)];
    assert(counted.drop_last() =~= adjusted);
    assert(adjusted.drop_last() =~= one);
    let names = first + (if nt {
        seq!["CA"@]
    } else {
        none
    });
    assert(named_flags(adjusted) =~= names);
    let all = names + (if sb {
        seq!["CY"@]
    } else {
        none
    });
    assert(named_flags(counted) =~= all);
    let shown = if all.len() == 0 {
        seq!["GOOD"@]
    } else {
        all
    };
    assert(shown.push("S"@ + decimal(number as nat)) =~= shown + seq![
        "S"@ + decimal(number as nat),
    ]);
}

/// The log tells of an object its address and what it holds: a state, a number,
/// a time behind it where it has one, and of a command whether it selects or
/// executes. An interrogation is told by its number.
pub proof fn law_objects_are_told(object: InformationObject, float: Seq<char>)
    ensures
        ({
            let line = object_line(object, float);
            let head = "IOA"@ + decimal(object.address as nat) + "="@;
            let phase = |se: SelectExecute|
                if se is Select {
                    " "@ + "Select"@
                } else {
                    " "@ + "Execute"@
                };
            match object.element {
                Element::SinglePoint { siq } => line == Some(
                    head + if siq.spi is On {
                        "1/合"@
                    } else {
                        "0/分"@
                    },
                ),
                Element::DoublePoint { diq } => {
                    &&& diq.dpi is On ==> line == Some(head + "2/合"@)
                    &&& diq.dpi is Off ==> line == Some(head + "1/分"@)
                },
                Element::Normalized { nva, .. } => line == Some(head + signed_decimal(nva as int)),
                Element::NormalizedNoQuality { nva } => line == Some(
                    head + signed_decimal(nva as int),
                ),
                Element::Counter { bcr, .. } => line == Some(head + signed_decimal(bcr as int)),
                Element::ShortFloat { .. } => line == Some(head + float),
                Element::SinglePointTime { siq, time } => line == Some(
                    head + (if siq.spi is On {
                        "1/合"@
                    } else {
                        "0/分"@
                    }) + "@"@ + time_text(time),
                ),
                Element::DoublePointTime { diq, time } => {
                    &&& diq.dpi is On ==> line == Some(head + "2/合"@ + "@"@ + time_text(time))
                    &&& diq.dpi is Off ==> line == Some(head + "1/分"@ + "@"@ + time_text(time))
                },
                Element::SingleCommand { scs, qu } => line == Some(
                    head + (if scs is On {
                        "1/合"@
                    } else {
                        "0/分"@
                    }) + phase(qu.se),
                ),
                Element::DoubleCommand { dcs, qu } => {
                    &&& dcs is On ==> line == Some(head + "2/合"@ + phase(qu.se))
                    &&& dcs is Off ==> line == Some(head + "1/分"@ + phase(qu.se))
                },
                Element::RegulatingCommand { rcs, qu } => {
                    &&& rcs is Increment ==> line == Some(head + "Increment"@ + phase(qu.se))
                    &&& rcs is Decrement ==> line == Some(head + "Decrement"@ + phase(qu.se))
                },
                Element::NormalizedSetpoint { nva, qos } => line == Some(
                    head + signed_decimal(nva as int) + phase(qos.se),
                ),
                Element::ScaledSetpoint { sva, qos } => line == Some(
                    head + signed_decimal(sva as int) + phase(qos.se),
                ),
                Element::FloatSetpoint { qos, .. } => line == Some(head + float + phase(qos.se)),
                Element::Interrogation { qoi } => line == Some("QOI="@ + decimal(qoi as nat)),
                Element::CounterInterrogation { rqt, frz } => line == Some(
                    "QCC="@ + decimal(rqt as nat) + "/"@ + decimal(frz as nat),
                ),
                Element::Read => line == Some("IOA"@ + decimal(object.address as nat)),
                Element::InitializationEnd { .. } => line is None,
                Element::ClockSync { .. } => line is None,
            }
        }),
{
    let head = "IOA"@ + decimal(object.address as nat) + "="@;
    match object.element {
        Element::SingleCommand { scs, qu } => lemma_told(head, spi_text(scs), qu.se),
        Element::DoubleCommand { dcs, qu } => lemma_told(head, dpi_text(dcs), qu.se),
        Element::RegulatingCommand { rcs, qu } => lemma_told(head, rcs_text(rcs), qu.se),
        Element::NormalizedSetpoint { nva, qos } => lemma_told(
            head,
            signed_decimal(nva as int),
            qos.se,
        ),
        Element::ScaledSetpoint { sva, qos } => lemma_told(
            head,
            signed_decimal(sva as int),
            qos.se,
        ),
        Element::FloatSetpoint { qos, .. } => lemma_told(head, float, qos.se),
        _ => {},
    }
}

proof fn lemma_told(head: Seq<char>, value: Seq<char>, se: SelectExecute)
    ensures
        head + value + " "@ + step_text(se) == head + value + (" "@ + step_text(se)),
{
    assert(head + value + " "@ + step_text(se) =~= head + value + (" "@ + step_text(se)));
}

/// What is kept of a unit for the log are its header fields as they are, and the
/// addresses of its objects in their order.
pub proof fn law_headers_are_kept(asdu: AsduView)
    ensures
        ({
            let meta = meta_of(asdu);
            &&& meta.common_address == asdu.address_field
            &&& meta.originator_address == asdu.originator_address
            &&& meta.sequence == asdu.sequence
            &&& meta.test == asdu.test
            &&& meta.negative == asdu.negative
            &&& asdu.objects matches ObjectsView::Known(objects) ==> meta.ioas.len()
                == objects.len() && forall|i: int|
                0 <= i < objects.len() ==> #[trigger] meta.ioas[i] == objects[i].address
            &&& asdu.objects is Other ==> meta.ioas.len() == 0
        }),
{
}

/// Causes of an answer are told apart in the log, and so are the answers to the
/// two interrogations.
pub proof fn law_causes_are_named(cot: u8)
    ensures
        cot == 3 ==> cot_label_text(cot) == "主动上送"@,
        cot == 4 ==> cot_label_text(cot) == "初始化"@,
        cot == 5 ==> cot_label_text(cot) == "请求"@,
        cot == 6 ==> cot_label_text(cot) == "激活"@,
        cot == 7 ==> cot_label_text(cot) == "激活确认"@,
        cot == 10 ==> cot_label_text(cot) == "激活结束"@,
        cot == 20 ==> cot_label_text(cot) == "总召响应"@,
        cot == 37 ==> cot_label_text(cot) == "电度总召响应"@,
        cot == 45 ==> cot_label_text(cot) == "未知原因"@,
        cot == 46 ==> cot_label_text(cot) == "未知公共地址"@,
        cot == 47 ==> cot_label_text(cot) == "未知 IOA"@,
        21 <= cot <= 36 || 38 <= cot <= 41 ==> cot_label_text(cot) == "分组/其他"@,
{
}

} // verus!
