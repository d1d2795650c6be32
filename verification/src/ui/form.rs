//! The forms in which the operator fills in a command or a value.

use crate::config::{dispatch_views, DispatchPointConfig, DispatchPointView, ToolConfig};
use crate::model::{
    ControlPhase, DispatchAction, DispatchPointKind, DispatchRequest, PointRow, PointView,
};
use crate::number::Real;
use crate::protocol::asdu::{float_text, largest_qualifier};
use crate::text::{
    ascii_lowercase, cat, cat_number, debug_rendering, debug_text, decimal, decimal_text,
    first_word, law_decimals_are_read_back, lowered, parse_unsigned, same_text, texts, trim,
    trimmed, unsigned_field, word,
};
use vstd::prelude::*;

verus! {

// ---------------------------------------------------------------------------
// Fields.
#[derive(Debug, Clone, Copy, PartialEq, Eq, Structural)]
pub enum FormField {
    Ioa,
    Value,
    Phase,
    CommonAddress,
    OriginatorAddress,
    Qualifier,
    Qoi,
    QccRequest,
    QccFreeze,
    Repeat,
    Interval,
    Clock,
    Test,
}

impl FormField {
    pub open spec fn label_text(self) -> Seq<char> {
        match self {
            Self::Ioa => "IOA"@,
            Self::Value => "值/状态"@,
            Self::Phase => "控制阶段"@,
            Self::CommonAddress => "CA"@,
            Self::OriginatorAddress => "OA"@,
            Self::Qualifier => "限定词"@,
            Self::Qoi => "QOI"@,
            Self::QccRequest => "QCC 请求组"@,
            Self::QccFreeze => "QCC 冻结"@,
            Self::Repeat => "重复次数"@,
            Self::Interval => "间隔 ms"@,
            Self::Clock => "校时时间"@,
            Self::Test => "测试位"@,
        }
    }

    pub fn label(self) -> (result: &'static str)
        ensures
            result@ == self.label_text(),
    {
        match self {
            Self::Ioa => "IOA",
            Self::Value => "值/状态",
            Self::Phase => "控制阶段",
            Self::CommonAddress => "CA",
            Self::OriginatorAddress => "OA",
            Self::Qualifier => "限定词",
            Self::Qoi => "QOI",
            Self::QccRequest => "QCC 请求组",
            Self::QccFreeze => "QCC 冻结",
            Self::Repeat => "重复次数",
            Self::Interval => "间隔 ms",
            Self::Clock => "校时时间",
            Self::Test => "测试位",
        }
    }

    pub fn is_toggle(self) -> (result: bool)
        ensures
            result == (self is Phase || self is Test),
    {
        matches!(self, Self::Phase | Self::Test)
    }
}

/// The fields of a command, in the order of its form.
pub open spec fn fields_of(action: DispatchAction) -> Seq<FormField> {
    match action {
        DispatchAction::StartDt => Seq::empty(),
        DispatchAction::StopDt => Seq::empty(),
        DispatchAction::TestFr => Seq::empty(),
        DispatchAction::GeneralInterrogation => seq![
            FormField::CommonAddress,
            FormField::OriginatorAddress,
            FormField::Qoi,
            FormField::Repeat,
            FormField::Interval,
            FormField::Test,
        ],
        DispatchAction::CounterInterrogation => seq![
            FormField::CommonAddress,
            FormField::OriginatorAddress,
            FormField::QccRequest,
            FormField::QccFreeze,
            FormField::Repeat,
            FormField::Interval,
            FormField::Test,
        ],
        DispatchAction::ClockSync => seq![
            FormField::CommonAddress,
            FormField::OriginatorAddress,
            FormField::Clock,
            FormField::Repeat,
            FormField::Interval,
            FormField::Test,
        ],
        DispatchAction::Read => seq![
            FormField::Ioa,
            FormField::CommonAddress,
            FormField::OriginatorAddress,
            FormField::Repeat,
            FormField::Interval,
            FormField::Test,
        ],
        _ => seq![
            FormField::Ioa,
            FormField::Value,
            FormField::Phase,
            FormField::CommonAddress,
            FormField::OriginatorAddress,
            FormField::Qualifier,
            FormField::Repeat,
            FormField::Interval,
            FormField::Test,
        ],
    }
}

pub fn action_fields(action: DispatchAction) -> (result: Vec<FormField>)
    ensures
        result@ == fields_of(action),
{
    let fields: Vec<FormField> = match action {
        DispatchAction::StartDt | DispatchAction::StopDt | DispatchAction::TestFr => Vec::new(),
        DispatchAction::GeneralInterrogation => vec![
            FormField::CommonAddress,
            FormField::OriginatorAddress,
            FormField::Qoi,
            FormField::Repeat,
            FormField::Interval,
            FormField::Test,
        ],
        DispatchAction::CounterInterrogation => vec![
            FormField::CommonAddress,
            FormField::OriginatorAddress,
            FormField::QccRequest,
            FormField::QccFreeze,
            FormField::Repeat,
            FormField::Interval,
            FormField::Test,
        ],
        DispatchAction::ClockSync => vec![
            FormField::CommonAddress,
            FormField::OriginatorAddress,
            FormField::Clock,
            FormField::Repeat,
            FormField::Interval,
            FormField::Test,
        ],
        DispatchAction::Read => vec![
            FormField::Ioa,
            FormField::CommonAddress,
            FormField::OriginatorAddress,
            FormField::Repeat,
            FormField::Interval,
            FormField::Test,
        ],
        _ => vec![
            FormField::Ioa,
            FormField::Value,
            FormField::Phase,
            FormField::CommonAddress,
            FormField::OriginatorAddress,
            FormField::Qualifier,
            FormField::Repeat,
            FormField::Interval,
            FormField::Test,
        ],
    };
    assert(fields@ =~= fields_of(action));
    fields
}

/// The characters that a field takes.
pub open spec fn field_takes(field: FormField, c: char) -> bool {
    let digit = '0' <= c && c <= '9';
    if field is Clock {
        digit || ('a' <= c && c <= 'z') || ('A' <= c && c <= 'Z') || c == '-' || c == '_'
    } else {
        digit || (field is Value && (c == '-' || c == '+' || c == '.'))
    }
}

pub fn valid_form_character(character: char, field: FormField) -> (result: bool)
    ensures
        result == field_takes(field, character),
{
    let digit = '0' <= character && character <= '9';
    if field == FormField::Clock {
        digit || ('a' <= character && character <= 'z') || ('A' <= character && character <= 'Z')
            || character == '-' || character == '_'
    } else {
        digit || (field == FormField::Value && (character == '-' || character == '+' || character
            == '.'))
    }
}

// ---------------------------------------------------------------------------
// Popups.
/// The popup in which a command is filled in.
#[derive(Debug)]
pub struct DispatchPopup {
    pub action: DispatchAction,
    pub field: usize,
    pub error: String,
}

#[verifier::ext_equal]
pub struct PopupState {
    pub action: DispatchAction,
    pub field: usize,
    pub error: Seq<char>,
}

impl View for DispatchPopup {
    type V = PopupState;

    open spec fn view(&self) -> PopupState {
        PopupState { action: self.action, field: self.field, error: self.error@ }
    }
}

impl PopupState {
    pub open spec fn opened(action: DispatchAction) -> PopupState {
        PopupState { action, field: 0, error: Seq::empty() }
    }

    pub open spec fn current_field(self) -> Option<FormField> {
        if self.field < fields_of(self.action).len() {
            Some(fields_of(self.action)[self.field as int])
        } else {
            None
        }
    }

    /// The next field, or the one before; the fields form a ring.
    pub open spec fn stepped(self, backwards: bool) -> PopupState {
        let length = fields_of(self.action).len();
        let field = if length == 0 {
            self.field
        } else if !backwards {
            ((self.field + 1) % (length as int)) as usize
        } else if self.field == 0 {
            (length - 1) as usize
        } else {
            (self.field - 1) as usize
        };
        PopupState { field, ..self }
    }
}

impl DispatchPopup {
    pub fn new(action: DispatchAction) -> (result: Self)
        ensures
            result@ == PopupState::opened(action),
    {
        DispatchPopup { action, field: 0, error: String::new() }
    }

    pub fn current_field(&self) -> (result: Option<FormField>)
        ensures
            result == self@.current_field(),
    {
        let fields = action_fields(self.action);
        if self.field < fields.len() {
            Some(fields[self.field])
        } else {
            None
        }
    }

    pub fn next_field(&mut self, backwards: bool)
        requires
            old(self).field < usize::MAX,
        ensures
            final(self)@ == old(self)@.stepped(backwards),
    {
        let length: usize = action_fields(self.action).len();
        if length == 0 {
            return;
        }
        self.field = if !backwards {
            (self.field + 1) % length
        } else if self.field == 0 {
            length - 1
        } else {
            self.field - 1
        };
    }
}

/// The popup in which the value of a point is changed.
#[derive(Debug)]
pub struct CollectValuePopup {
    pub ioa: u32,
    pub type_id: String,
    pub name: String,
    pub kind_name: String,
    pub value: String,
    pub error: String,
}

#[verifier::ext_equal]
pub struct ValuePopupState {
    pub ioa: u32,
    pub type_id: Seq<char>,
    pub name: Seq<char>,
    pub kind_name: Seq<char>,
    pub value: Seq<char>,
    pub error: Seq<char>,
}

impl View for CollectValuePopup {
    type V = ValuePopupState;

    open spec fn view(&self) -> ValuePopupState {
        ValuePopupState {
            ioa: self.ioa,
            type_id: self.type_id@,
            name: self.name@,
            kind_name: self.kind_name@,
            value: self.value@,
            error: self.error@,
        }
    }
}

impl ValuePopupState {
    /// The popup of a point, with the first word of what is shown of its value.
    pub open spec fn opened(point: PointRow) -> ValuePopupState {
        ValuePopupState {
            ioa: point.ioa,
            type_id: point.type_id,
            name: point.name,
            kind_name: point.kind_name,
            value: match point.value {
                Some(value) => first_word(value),
                None => Seq::empty(),
            },
            error: Seq::empty(),
        }
    }
}

impl CollectValuePopup {
    pub fn new(point: &PointView) -> (result: Self)
        ensures
            result@ == ValuePopupState::opened(point@),
    {
        let value = match &point.value {
            Some(value) => word(value.as_str()).to_owned(),
            None => String::new(),
        };
        CollectValuePopup {
            ioa: point.ioa,
            type_id: point.type_id.clone(),
            name: point.name.clone(),
            kind_name: point.kind_name.clone(),
            value,
            error: String::new(),
        }
    }
}

// ---------------------------------------------------------------------------
// The form of a command.
/// What the operator filled in.
#[derive(Debug)]
pub struct DispatchForm {
    pub ioa: String,
    pub value: String,
    pub common_address: String,
    pub originator_address: String,
    pub qualifier: String,
    pub qoi: String,
    pub qcc_request: String,
    pub qcc_freeze: String,
    pub repeat: String,
    pub interval: String,
    pub clock: String,
    pub phase: ControlPhase,
    pub test: bool,
}

#[verifier::ext_equal]
pub struct FormState {
    pub ioa: Seq<char>,
    pub value: Seq<char>,
    pub common_address: Seq<char>,
    pub originator_address: Seq<char>,
    pub qualifier: Seq<char>,
    pub qoi: Seq<char>,
    pub qcc_request: Seq<char>,
    pub qcc_freeze: Seq<char>,
    pub repeat: Seq<char>,
    pub interval: Seq<char>,
    pub clock: Seq<char>,
    pub phase: ControlPhase,
    pub test: bool,
}

impl View for DispatchForm {
    type V = FormState;

    open spec fn view(&self) -> FormState {
        FormState {
            ioa: self.ioa@,
            value: self.value@,
            common_address: self.common_address@,
            originator_address: self.originator_address@,
            qualifier: self.qualifier@,
            qoi: self.qoi@,
            qcc_request: self.qcc_request@,
            qcc_freeze: self.qcc_freeze@,
            repeat: self.repeat@,
            interval: self.interval@,
            clock: self.clock@,
            phase: self.phase,
            test: self.test,
        }
    }
}

/// The number in a field, where it is one and not above a maximum.
pub open spec fn number_in(text: Seq<char>, maximum: nat) -> Option<nat> {
    match unsigned_field(trimmed(text)) {
        Some(number) => if number <= maximum {
            Some(number)
        } else {
            None
        },
        None => None,
    }
}

pub open spec fn malformed_text(label: Seq<char>, text: Seq<char>) -> Seq<char> {
    label + "格式不正确: "@ + debug_rendering(text)
}

fn malformed(label: &str, text: &str) -> (result: String)
    ensures
        result@ == malformed_text(label@, text@),
{
    let shown = debug_text(text);
    cat(cat(label.to_owned(), "格式不正确: "), shown.as_str())
}

fn parse_number(text: &str, label: &str, maximum: u64) -> (result: Result<u64, String>)
    ensures
        match result {
            Ok(number) => number_in(text@, maximum as nat) == Some(number as nat),
            Err(error) => number_in(text@, maximum as nat) is None && error@ == malformed_text(
                label@,
                text@,
            ),
        },
{
    match parse_unsigned(trim(text), maximum) {
        Some(number) => Ok(number),
        None => Err(malformed(label, text)),
    }
}

impl FormState {
    /// The form as it is first shown.
    pub open spec fn first(config: ToolConfig) -> FormState {
        FormState {
            ioa: "201"@,
            value: "1"@,
            common_address: decimal(config.dispatch.common_address as nat),
            originator_address: decimal(config.protocol.originator_address as nat),
            qualifier: "0"@,
            qoi: "20"@,
            qcc_request: "5"@,
            qcc_freeze: "0"@,
            repeat: "1"@,
            interval: "200"@,
            clock: "now"@,
            phase: ControlPhase::Execute,
            test: false,
        }
    }

    /// The text of a field, where it has one.
    pub open spec fn text(self, field: FormField) -> Option<Seq<char>> {
        match field {
            FormField::Ioa => Some(self.ioa),
            FormField::Value => Some(self.value),
            FormField::CommonAddress => Some(self.common_address),
            FormField::OriginatorAddress => Some(self.originator_address),
            FormField::Qualifier => Some(self.qualifier),
            FormField::Qoi => Some(self.qoi),
            FormField::QccRequest => Some(self.qcc_request),
            FormField::QccFreeze => Some(self.qcc_freeze),
            FormField::Repeat => Some(self.repeat),
            FormField::Interval => Some(self.interval),
            FormField::Clock => Some(self.clock),
            FormField::Phase => None,
            FormField::Test => None,
        }
    }

    pub open spec fn with_text(self, field: FormField, text: Seq<char>) -> FormState {
        match field {
            FormField::Ioa => FormState { ioa: text, ..self },
            FormField::Value => FormState { value: text, ..self },
            FormField::CommonAddress => FormState { common_address: text, ..self },
            FormField::OriginatorAddress => FormState { originator_address: text, ..self },
            FormField::Qualifier => FormState { qualifier: text, ..self },
            FormField::Qoi => FormState { qoi: text, ..self },
            FormField::QccRequest => FormState { qcc_request: text, ..self },
            FormField::QccFreeze => FormState { qcc_freeze: text, ..self },
            FormField::Repeat => FormState { repeat: text, ..self },
            FormField::Interval => FormState { interval: text, ..self },
            FormField::Clock => FormState { clock: text, ..self },
            FormField::Phase => self,
            FormField::Test => self,
        }
    }

    /// What is shown of a field.
    pub open spec fn shown(self, field: FormField) -> Seq<char> {
        match self.text(field) {
            Some(text) => text,
            None => if field is Phase {
                self.phase.label_text()
            } else if self.test {
                "1 / 开"@
            } else {
                "0 / 关"@
            },
        }
    }

    pub open spec fn toggled(self, field: FormField) -> FormState {
        match field {
            FormField::Phase => FormState {
                phase: match self.phase {
                    ControlPhase::Select => ControlPhase::Execute,
                    ControlPhase::Execute => ControlPhase::Select,
                },
                ..self
            },
            FormField::Test => FormState { test: !self.test, ..self },
            _ => self,
        }
    }

    /// The clock is to be set to the time at which the command is sent.
    pub open spec fn sets_now(self) -> bool {
        lowered(trimmed(self.clock)) == "now"@
    }

    /// Why a command cannot be sent as it is filled in, if it cannot. The value
    /// is the number that its field holds.
    pub open spec fn refusal(self, action: DispatchAction, value: Option<Real>) -> Option<Seq<char>> {
        let addressed = action is Read || action.control();
        let linked = !action.link_only();
        let counted = action is CounterInterrogation;
        let ioa = number_in(self.ioa, u32::MAX as nat);
        let address = number_in(self.common_address, u16::MAX as nat);
        let clock = number_in(self.clock, u64::MAX as nat);
        let qualifier = number_in(self.qualifier, u8::MAX as nat);
        let qoi = number_in(self.qoi, u8::MAX as nat);
        let group = number_in(self.qcc_request, u8::MAX as nat);
        let freeze = number_in(self.qcc_freeze, u8::MAX as nat);
        let originator = number_in(self.originator_address, u8::MAX as nat);
        let repeat = number_in(self.repeat, u16::MAX as nat);
        let interval = number_in(self.interval, u64::MAX as nat);
        if addressed && ioa is None {
            Some(malformed_text("IOA"@, self.ioa))
        } else if addressed && ioa->0 > 0xFF_FFFF {
            Some("IOA 超出三字节范围"@)
        } else if linked && address is None {
            Some(malformed_text("CA"@, self.common_address))
        } else if linked && address->0 == 0 {
            Some("CA 不能为 0；允许具体站地址或 65535 广播"@)
        } else if action is ClockSync && !self.sets_now() && clock is None {
            Some(malformed_text("校时时间（Unix ms 或 now）"@, self.clock))
        } else if action.control() && qualifier is None {
            Some(malformed_text("限定词"@, self.qualifier))
        } else if action.control() && qualifier->0 > largest_qualifier(action) {
            Some(
                action.label_text() + " 限定词必须在 0..="@ + decimal(
                    largest_qualifier(action) as nat,
                ),
            )
        } else if action is GeneralInterrogation && qoi is None {
            Some(malformed_text("QOI"@, self.qoi))
        } else if action is GeneralInterrogation && !(20 <= qoi->0 <= 36) {
            Some("QOI 必须在 20..=36"@)
        } else if counted && group is None {
            Some(malformed_text("QCC 请求组"@, self.qcc_request))
        } else if counted && !(1 <= group->0 <= 5) {
            Some("QCC 请求组必须在 1..=5（5=全局）"@)
        } else if counted && freeze is None {
            Some(malformed_text("QCC 冻结"@, self.qcc_freeze))
        } else if counted && freeze->0 > 3 {
            Some("QCC 冻结限定词必须在 0..=3"@)
        } else if action.control() && value is None {
            Some(malformed_text("值"@, self.value))
        } else if linked && originator is None {
            Some(malformed_text("OA"@, self.originator_address))
        } else if linked && repeat is None {
            Some(malformed_text("重复次数"@, self.repeat))
        } else if linked && repeat->0 == 0 {
            Some("重复次数必须在 1..=1000"@)
        } else if linked && repeat->0 > 1_000 {
            Some("重复次数不能大于 1000"@)
        } else if linked && interval is None {
            Some(malformed_text("发送间隔"@, self.interval))
        } else {
            None
        }
    }

    /// The command that is filled in.
    pub open spec fn filled_in(self, action: DispatchAction, value: Option<Real>) -> DispatchRequest {
        let linked = !action.link_only();
        let counted = action is CounterInterrogation;
        let repeat = number_in(self.repeat, u16::MAX as nat)->0;
        DispatchRequest {
            action,
            ioa: if action is Read || action.control() {
                number_in(self.ioa, u32::MAX as nat)->0 as u32
            } else {
                0
            },
            value: if action.control() {
                value->0
            } else {
                Real { double: 0, single: 0 }
            },
            phase: self.phase,
            common_address: if linked {
                number_in(self.common_address, u16::MAX as nat)->0 as u16
            } else {
                1
            },
            originator_address: if linked {
                number_in(self.originator_address, u8::MAX as nat)->0 as u8
            } else {
                0
            },
            qualifier: if action.control() {
                number_in(self.qualifier, u8::MAX as nat)->0 as u8
            } else {
                0
            },
            test: self.test,
            qoi: if action is GeneralInterrogation {
                number_in(self.qoi, u8::MAX as nat)->0 as u8
            } else {
                20
            },
            qcc_request: if counted {
                number_in(self.qcc_request, u8::MAX as nat)->0 as u8
            } else {
                5
            },
            qcc_freeze: if counted {
                number_in(self.qcc_freeze, u8::MAX as nat)->0 as u8
            } else {
                0
            },
            repeat: if linked {
                repeat as u16
            } else {
                1
            },
            interval_ms: if linked {
                number_in(self.interval, u64::MAX as nat)->0 as u64
            } else {
                0
            },
            clock_time_ms: if action is ClockSync && !self.sets_now() {
                Some(number_in(self.clock, u64::MAX as nat)->0 as u64)
            } else {
                None
            },
        }
    }

    pub open spec fn requested(self, action: DispatchAction, value: Option<Real>) -> Result<
        DispatchRequest,
        Seq<char>,
    > {
        match self.refusal(action, value) {
            Some(text) => Err(text),
            None => Ok(self.filled_in(action, value)),
        }
    }
}

pub open spec fn request_view(result: Result<DispatchRequest, String>) -> Result<
    DispatchRequest,
    Seq<char>,
> {
    match result {
        Ok(request) => Ok(request),
        Err(text) => Err(text@),
    }
}

impl DispatchForm {
    pub fn new(config: &ToolConfig) -> (result: Self)
        ensures
            result@ == FormState::first(*config),
    {
        DispatchForm {
            ioa: "201".to_owned(),
            value: "1".to_owned(),
            common_address: decimal_text(config.dispatch.common_address as u128),
            originator_address: decimal_text(config.protocol.originator_address as u128),
            qualifier: "0".to_owned(),
            qoi: "20".to_owned(),
            qcc_request: "5".to_owned(),
            qcc_freeze: "0".to_owned(),
            repeat: "1".to_owned(),
            interval: "200".to_owned(),
            clock: "now".to_owned(),
            phase: ControlPhase::Execute,
            test: false,
        }
    }

    /// The text of a field, where it has one.
    pub fn text(&self, field: FormField) -> (result: Option<&String>)
        ensures
            match result {
                Some(text) => self@.text(field) == Some(text@),
                None => self@.text(field) is None,
            },
    {
        match field {
            FormField::Ioa => Some(&self.ioa),
            FormField::Value => Some(&self.value),
            FormField::CommonAddress => Some(&self.common_address),
            FormField::OriginatorAddress => Some(&self.originator_address),
            FormField::Qualifier => Some(&self.qualifier),
            FormField::Qoi => Some(&self.qoi),
            FormField::QccRequest => Some(&self.qcc_request),
            FormField::QccFreeze => Some(&self.qcc_freeze),
            FormField::Repeat => Some(&self.repeat),
            FormField::Interval => Some(&self.interval),
            FormField::Clock => Some(&self.clock),
            FormField::Phase | FormField::Test => None,
        }
    }

    pub fn set_text(&mut self, field: FormField, text: String)
        ensures
            final(self)@ == old(self)@.with_text(field, text@),
    {
        match field {
            FormField::Ioa => {
                self.ioa = text;
            },
            FormField::Value => {
                self.value = text;
            },
            FormField::CommonAddress => {
                self.common_address = text;
            },
            FormField::OriginatorAddress => {
                self.originator_address = text;
            },
            FormField::Qualifier => {
                self.qualifier = text;
            },
            FormField::Qoi => {
                self.qoi = text;
            },
            FormField::QccRequest => {
                self.qcc_request = text;
            },
            FormField::QccFreeze => {
                self.qcc_freeze = text;
            },
            FormField::Repeat => {
                self.repeat = text;
            },
            FormField::Interval => {
                self.interval = text;
            },
            FormField::Clock => {
                self.clock = text;
            },
            FormField::Phase | FormField::Test => {},
        }
    }

    pub fn display_value(&self, field: FormField) -> (result: String)
        ensures
            result@ == self@.shown(field),
    {
        match self.text(field) {
            Some(text) => text.clone(),
            None => {
                if field == FormField::Phase {
                    self.phase.label().to_owned()
                } else if self.test {
                    "1 / 开".to_owned()
                } else {
                    "0 / 关".to_owned()
                }
            },
        }
    }

    pub fn toggle(&mut self, field: FormField)
        ensures
            final(self)@ == old(self)@.toggled(field),
    {
        match field {
            FormField::Phase => {
                self.phase = match self.phase {
                    ControlPhase::Select => ControlPhase::Execute,
                    ControlPhase::Execute => ControlPhase::Select,
                };
            },
            FormField::Test => {
                self.test = !self.test;
            },
            _ => {},
        }
    }

    fn sets_now(&self) -> (result: bool)
        ensures
            result == self@.sets_now(),
    {
        let lower = ascii_lowercase(trim(self.clock.as_str()));
        same_text(lower.as_str(), "now")
    }

    /// Makes the command that is filled in. The value is the number that its
    /// field holds, where it holds one.
    pub fn request(&self, action: DispatchAction, value: Option<Real>) -> (result: Result<
        DispatchRequest,
        String,
    >)
        ensures
            request_view(result) == self@.requested(action, value),
    {
        let linked = !matches!(
            action,
            DispatchAction::StartDt | DispatchAction::StopDt | DispatchAction::TestFr
        );
        let control = action.is_control();
        let counted = action == DispatchAction::CounterInterrogation;
        let mut ioa: u32 = 0;
        if action.uses_ioa() {
            match parse_number(self.ioa.as_str(), "IOA", u32::MAX as u64) {
                Err(text) => {
                    return Err(text);
                },
                Ok(number) => {
                    if number > 0xFF_FFFF {
                        return Err("IOA 超出三字节范围".to_owned());
                    }
                    ioa = number as u32;
                },
            }
        }
        let mut common_address: u16 = 1;
        if linked {
            match parse_number(self.common_address.as_str(), "CA", u16::MAX as u64) {
                Err(text) => {
                    return Err(text);
                },
                Ok(number) => {
                    if number == 0 {
                        return Err("CA 不能为 0；允许具体站地址或 65535 广播".to_owned());
                    }
                    common_address = number as u16;
                },
            }
        }
        let mut clock_time_ms: Option<u64> = None;
        if action == DispatchAction::ClockSync && !self.sets_now() {
            match parse_number(
                self.clock.as_str(),
                "校时时间（Unix ms 或 now）",
                u64::MAX,
            ) {
                Err(text) => {
                    return Err(text);
                },
                Ok(number) => {
                    clock_time_ms = Some(number);
                },
            }
        }
        let mut qualifier: u8 = 0;
        if control {
            match parse_number(self.qualifier.as_str(), "限定词", u8::MAX as u64) {
                Err(text) => {
                    return Err(text);
                },
                Ok(number) => {
                    let setpoint = matches!(
                        action,
                        DispatchAction::NormalizedSetpoint
                            | DispatchAction::ScaledSetpoint
                            | DispatchAction::FloatSetpoint
                    );
                    let maximum: u64 = if setpoint {
                        127
                    } else {
                        31
                    };
                    if number > maximum {
                        let text = cat(action.label().to_owned(), " 限定词必须在 0..=");
                        return Err(cat_number(text, maximum));
                    }
                    qualifier = number as u8;
                },
            }
        }
        let mut qoi: u8 = 20;
        if action == DispatchAction::GeneralInterrogation {
            match parse_number(self.qoi.as_str(), "QOI", u8::MAX as u64) {
                Err(text) => {
                    return Err(text);
                },
                Ok(number) => {
                    if number < 20 || number > 36 {
                        return Err("QOI 必须在 20..=36".to_owned());
                    }
                    qoi = number as u8;
                },
            }
        }
        let mut qcc_request: u8 = 5;
        let mut qcc_freeze: u8 = 0;
        if counted {
            match parse_number(self.qcc_request.as_str(), "QCC 请求组", u8::MAX as u64) {
                Err(text) => {
                    return Err(text);
                },
                Ok(number) => {
                    if number < 1 || number > 5 {
                        return Err("QCC 请求组必须在 1..=5（5=全局）".to_owned());
                    }
                    qcc_request = number as u8;
                },
            }
            match parse_number(self.qcc_freeze.as_str(), "QCC 冻结", u8::MAX as u64) {
                Err(text) => {
                    return Err(text);
                },
                Ok(number) => {
                    if number > 3 {
                        return Err("QCC 冻结限定词必须在 0..=3".to_owned());
                    }
                    qcc_freeze = number as u8;
                },
            }
        }
        let mut number = Real { double: 0, single: 0 };
        if control {
            match value {
                Some(value) => {
                    number = value;
                },
                None => {
                    return Err(malformed("值", self.value.as_str()));
                },
            }
        }
        let mut originator_address: u8 = 0;
        let mut repeat: u16 = 1;
        let mut interval_ms: u64 = 0;
        if linked {
            match parse_number(self.originator_address.as_str(), "OA", u8::MAX as u64) {
                Err(text) => {
                    return Err(text);
                },
                Ok(number) => {
                    originator_address = number as u8;
                },
            }
            match parse_number(self.repeat.as_str(), "重复次数", u16::MAX as u64) {
                Err(text) => {
                    return Err(text);
                },
                Ok(number) => {
                    if number == 0 {
                        return Err("重复次数必须在 1..=1000".to_owned());
                    }
                    if number > 1_000 {
                        return Err("重复次数不能大于 1000".to_owned());
                    }
                    repeat = number as u16;
                },
            }
            match parse_number(self.interval.as_str(), "发送间隔", u64::MAX) {
                Err(text) => {
                    return Err(text);
                },
                Ok(number) => {
                    interval_ms = number;
                },
            }
        }
        Ok(
            DispatchRequest {
                action,
                ioa,
                value: number,
                phase: self.phase,
                common_address,
                originator_address,
                qualifier,
                test: self.test,
                qoi,
                qcc_request,
                qcc_freeze,
                repeat,
                interval_ms,
                clock_time_ms,
            },
        )
    }
}

// ---------------------------------------------------------------------------
// Hints from the point table.
/// The kind of point that a command operates.
pub open spec fn commanded_kind(action: DispatchAction) -> Option<DispatchPointKind> {
    match action {
        DispatchAction::SingleControl => Some(DispatchPointKind::SingleControl),
        DispatchAction::DoubleControl => Some(DispatchPointKind::DoubleControl),
        DispatchAction::RegulatingStep => Some(DispatchPointKind::RegulatingStep),
        DispatchAction::NormalizedSetpoint => Some(DispatchPointKind::NormalizedSetpoint),
        DispatchAction::ScaledSetpoint => Some(DispatchPointKind::ScaledSetpoint),
        DispatchAction::FloatSetpoint => Some(DispatchPointKind::FloatSetpoint),
        _ => None,
    }
}

fn command_kind(action: DispatchAction) -> (result: Option<DispatchPointKind>)
    ensures
        result == commanded_kind(action),
{
    match action {
        DispatchAction::SingleControl => Some(DispatchPointKind::SingleControl),
        DispatchAction::DoubleControl => Some(DispatchPointKind::DoubleControl),
        DispatchAction::RegulatingStep => Some(DispatchPointKind::RegulatingStep),
        DispatchAction::NormalizedSetpoint => Some(DispatchPointKind::NormalizedSetpoint),
        DispatchAction::ScaledSetpoint => Some(DispatchPointKind::ScaledSetpoint),
        DispatchAction::FloatSetpoint => Some(DispatchPointKind::FloatSetpoint),
        _ => None,
    }
}

/// The first point of a kind.
pub open spec fn kind_position(points: Seq<DispatchPointView>, kind: DispatchPointKind) -> Option<int>
    decreases points.len(),
{
    if points.len() == 0 {
        None
    } else {
        match kind_position(points.drop_last(), kind) {
            Some(index) => Some(index),
            None => if points.last().kind == kind {
                Some(points.len() - 1)
            } else {
                None
            },
        }
    }
}

fn find_kind(points: &Vec<DispatchPointConfig>, kind: DispatchPointKind) -> (result: Option<usize>)
    ensures
        match result {
            Some(index) => index < points@.len() && kind_position(dispatch_views(points@), kind)
                == Some(index as int),
            None => kind_position(dispatch_views(points@), kind) is None,
        },
{
    let ghost views = dispatch_views(points@);
    let mut index: usize = 0;
    let mut found: Option<usize> = None;
    assert(views.take(0) =~= Seq::<DispatchPointView>::empty());
    while index < points.len()
        invariant
            index <= points@.len(),
            views == dispatch_views(points@),
            match found {
                Some(position) => position < index && kind_position(
                    views.take(index as int),
                    kind,
                ) == Some(position as int),
                None => kind_position(views.take(index as int), kind) is None,
            },
        decreases points.len() - index,
    {
        assert(views.take(index + 1).drop_last() =~= views.take(index as int));
        assert(views.take(index + 1).last() == points@[index as int]@);
        if found.is_none() && points[index].kind == kind {
            found = Some(index);
        }
        index += 1;
    }
    assert(views.take(index as int) =~= views);
    found
}

/// The value that a point suggests: its default, else the middle of its range,
/// else the end that it has.
pub open spec fn hinted_value(point: DispatchPointView, middle: Seq<char>) -> Option<Seq<char>> {
    match point.default_value {
        Some(value) => Some(value.plain),
        None => match (point.min, point.max) {
            (Some(_), Some(_)) => Some(middle),
            (Some(min), None) => Some(min.plain),
            (None, Some(max)) => Some(max.plain),
            (None, None) => None,
        },
    }
}

impl FormState {
    /// The form with what the first point that the command operates suggests.
    /// The middles are the renderings of the middles of the points' ranges.
    pub open spec fn hinted(
        self,
        action: DispatchAction,
        points: Seq<DispatchPointView>,
        middles: Seq<Seq<char>>,
    ) -> FormState {
        match commanded_kind(action) {
            None => self,
            Some(kind) => match kind_position(points, kind) {
                None => self,
                Some(index) => {
                    let addressed = FormState { ioa: decimal(points[index].ioa as nat), ..self };
                    match hinted_value(points[index], float_text(middles, index)) {
                        Some(value) => FormState { value, ..addressed },
                        None => if kind is SingleControl || kind is DoubleControl || kind
                            is RegulatingStep {
                            FormState { value: "1"@, ..addressed }
                        } else {
                            addressed
                        },
                    }
                },
            },
        }
    }
}

impl DispatchForm {
    pub fn apply_hint(
        &mut self,
        action: DispatchAction,
        points: &Vec<DispatchPointConfig>,
        middles: &Vec<String>,
    )
        ensures
            final(self)@ == old(self)@.hinted(
                action,
                dispatch_views(points@),
                texts(middles@),
            ),
    {
        let kind = match command_kind(action) {
            Some(kind) => kind,
            None => {
                return;
            },
        };
        let index: usize = match find_kind(points, kind) {
            Some(index) => index,
            None => {
                return;
            },
        };
        let point = &points[index];
        assert(dispatch_views(points@)[index as int] == point@);
        self.ioa = decimal_text(point.ioa as u128);
        if let Some(value) = &point.default_value {
            self.value = value.plain.clone();
            return;
        }
        match (&point.min, &point.max) {
            (Some(_), Some(_)) => {
                self.value = if index < middles.len() {
                    middles[index].clone()
                } else {
                    String::new()
                };
            },
            (Some(min), None) => {
                self.value = min.plain.clone();
            },
            (None, Some(max)) => {
                self.value = max.plain.clone();
            },
            (None, None) => {
                if matches!(
                    kind,
                    DispatchPointKind::SingleControl
                        | DispatchPointKind::DoubleControl
                        | DispatchPointKind::RegulatingStep
                ) {
                    self.value = "1".to_owned();
                }
            },
        }
    }
}

// ---------------------------------------------------------------------------
// Laws.
/// A command that the form makes has fields that can be sent.
pub proof fn law_form_makes_sendable_requests(
    form: FormState,
    action: DispatchAction,
    value: Option<Real>,
)
    requires
        form.refusal(action, value) is None,
    ensures
        crate::protocol::asdu::field_refusal(form.filled_in(action, value)) is None,
{
}

proof fn lemma_first_kind(points: Seq<DispatchPointView>, kind: DispatchPointKind)
    ensures
        kind_position(points, kind) matches Some(index) ==> 0 <= index < points.len()
            && points[index].kind == kind,
    decreases points.len(),
{
    if points.len() > 0 {
        lemma_first_kind(points.drop_last(), kind);
    }
}

/// A command that is sent as a point suggests it goes to that point, which is
/// one that the command operates.
pub proof fn law_hint_is_requested(
    form: FormState,
    action: DispatchAction,
    points: Seq<DispatchPointView>,
    middles: Seq<Seq<char>>,
    value: Option<Real>,
    kind: DispatchPointKind,
    index: int,
)
    requires
        commanded_kind(action) == Some(kind),
        kind_position(points, kind) == Some(index),
    ensures
        points[index].kind == kind,
        form.hinted(action, points, middles).filled_in(action, value).ioa == points[index].ioa,
{
    lemma_first_kind(points, kind);
    law_decimals_are_read_back(points[index].ioa as nat);
}

proof fn lemma_first_texts()
    ensures
        "201"@ == decimal(201),
        "200"@ == decimal(200),
        "20"@ == decimal(20),
        "5"@ == decimal(5),
        "1"@ == decimal(1),
        "0"@ == decimal(0),
        lowered(trimmed("now"@)) == "now"@,
{
    reveal_with_fuel(decimal, 3);
    reveal_strlit("201");
    reveal_strlit("200");
    reveal_strlit("20");
    reveal_strlit("5");
    reveal_strlit("1");
    reveal_strlit("0");
    reveal_strlit("now");
    assert("201"@ =~= decimal(201));
    assert("200"@ =~= decimal(200));
    assert("20"@ =~= decimal(20));
    assert("5"@ =~= decimal(5));
    assert("1"@ =~= decimal(1));
    assert("0"@ =~= decimal(0));
    assert(lowered("now"@) =~= "now"@);
}

/// The form can be sent as it is first shown, for every command, and goes to the
/// configured station.
pub proof fn law_first_form_can_be_sent(
    config: ToolConfig,
    action: DispatchAction,
    value: Option<Real>,
)
    requires
        config.dispatch.common_address != 0,
        action.control() ==> value is Some,
    ensures
        FormState::first(config).refusal(action, value) is None,
        ({
            let request = FormState::first(config).filled_in(action, value);
            !action.link_only() ==> request.common_address == config.dispatch.common_address
                && request.originator_address == config.protocol.originator_address
                && request.repeat == 1
        }),
{
    lemma_first_texts();
    law_decimals_are_read_back(201);
    law_decimals_are_read_back(200);
    law_decimals_are_read_back(20);
    law_decimals_are_read_back(5);
    law_decimals_are_read_back(1);
    law_decimals_are_read_back(0);
    law_decimals_are_read_back(config.dispatch.common_address as nat);
    law_decimals_are_read_back(config.protocol.originator_address as nat);
}

/// A step back through the fields undoes a step forward, and the other way
/// round.
pub proof fn law_fields_form_a_ring(popup: PopupState)
    requires
        popup.field < fields_of(popup.action).len(),
    ensures
        popup.stepped(false).stepped(true) == popup,
        popup.stepped(true).stepped(false) == popup,
        popup.stepped(false).field < fields_of(popup.action).len(),
        popup.stepped(true).field < fields_of(popup.action).len(),
{
    let length = fields_of(popup.action).len();
    if popup.field + 1 < length {
        vstd::arithmetic::div_mod::lemma_small_mod((popup.field + 1) as nat, length);
    } else {
        vstd::arithmetic::div_mod::lemma_mod_self_0(length as int);
    }
    if popup.field > 0 {
        vstd::arithmetic::div_mod::lemma_small_mod(popup.field as nat, length);
    } else {
        vstd::arithmetic::div_mod::lemma_mod_self_0(length as int);
    }
}

/// Toggling a field twice changes nothing.
pub proof fn law_toggling_twice_changes_nothing(form: FormState, field: FormField)
    ensures
        form.toggled(field).toggled(field) == form,
{
}

// ---------------------------------------------------------------------------
// Laws of what a form asks.
/// The field reads as a number between two others.
pub open spec fn reads_between(text: Seq<char>, low: nat, high: nat) -> bool {
    unsigned_field(trimmed(text)) matches Some(number) && low <= number <= high
}

/// The field reads as the number.
pub open spec fn reads_as(text: Seq<char>, number: int) -> bool {
    unsigned_field(trimmed(text)) matches Some(found) && found == number
}

/// The command operates a target.
pub open spec fn operates(action: DispatchAction) -> bool {
    ||| action is SingleControl
    ||| action is DoubleControl
    ||| action is RegulatingStep
    ||| action is NormalizedSetpoint
    ||| action is ScaledSetpoint
    ||| action is FloatSetpoint
}

/// The command is sent as a unit.
pub open spec fn is_a_unit(action: DispatchAction) -> bool {
    action !is StartDt && action !is StopDt && action !is TestFr
}

/// A form is accepted for a command exactly where every field that the command
/// has reads as a number that the command can take, the value where it operates a
/// target is one, and the time is one or the present.
pub proof fn law_forms_are_accepted(form: FormState, action: DispatchAction, value: Option<Real>)
    ensures
        form.requested(action, value) is Ok <==> {
            &&& action is Read || operates(action) ==> reads_between(form.ioa, 0, 0xFF_FFFF)
            &&& is_a_unit(action) ==> reads_between(form.common_address, 1, 0xFFFF)
            &&& is_a_unit(action) ==> reads_between(form.originator_address, 0, 0xFF)
            &&& is_a_unit(action) ==> reads_between(form.repeat, 1, 1000)
            &&& is_a_unit(action) ==> reads_between(form.interval, 0, 0xFFFF_FFFF_FFFF_FFFF)
            &&& action is ClockSync ==> lowered(trimmed(form.clock)) == "now"@ || reads_between(
                form.clock,
                0,
                0xFFFF_FFFF_FFFF_FFFF,
            )
            &&& action is SingleControl || action is DoubleControl || action is RegulatingStep
                ==> reads_between(form.qualifier, 0, 31)
            &&& action is NormalizedSetpoint || action is ScaledSetpoint || action is FloatSetpoint
                ==> reads_between(form.qualifier, 0, 127)
            &&& action is GeneralInterrogation ==> reads_between(form.qoi, 20, 36)
            &&& action is CounterInterrogation ==> reads_between(form.qcc_request, 1, 5)
            &&& action is CounterInterrogation ==> reads_between(form.qcc_freeze, 0, 3)
            &&& operates(action) ==> value is Some
        },
{
}

/// The request says what the form says, field by field; what the command does
/// not have is left at its usual number.
pub proof fn law_requests_say_what_the_form_says(
    form: FormState,
    action: DispatchAction,
    value: Option<Real>,
)
    ensures
        form.requested(action, value) matches Ok(request) ==> {
            &&& request.action == action
            &&& request.phase == form.phase
            &&& request.test == form.test
            &&& if action is Read || operates(action) {
                reads_as(form.ioa, request.ioa as int)
            } else {
                request.ioa == 0
            }
            &&& operates(action) ==> value == Some(request.value) && reads_as(
                form.qualifier,
                request.qualifier as int,
            )
            &&& !operates(action) ==> request.qualifier == 0 && request.value.double == 0
            &&& is_a_unit(action) ==> {
                &&& reads_as(form.common_address, request.common_address as int)
                &&& reads_as(form.originator_address, request.originator_address as int)
                &&& reads_as(form.repeat, request.repeat as int)
                &&& reads_as(form.interval, request.interval_ms as int)
            }
            &&& !is_a_unit(action) ==> request.common_address == 1 && request.originator_address
                == 0 && request.repeat == 1 && request.interval_ms == 0
            &&& if action is GeneralInterrogation {
                reads_as(form.qoi, request.qoi as int)
            } else {
                request.qoi == 20
            }
            &&& if action is CounterInterrogation {
                reads_as(form.qcc_request, request.qcc_request as int) && reads_as(
                    form.qcc_freeze,
                    request.qcc_freeze as int,
                )
            } else {
                request.qcc_request == 5 && request.qcc_freeze == 0
            }
            &&& match request.clock_time_ms {
                Some(time) => action is ClockSync && reads_as(form.clock, time as int)
                    && lowered(trimmed(form.clock)) != "now"@,
                None => action !is ClockSync || lowered(trimmed(form.clock)) == "now"@,
            }
        },
{
}

/// A form has the fields of its command: an address where it reads or operates a
/// point, the value, phase and qualifier of one that operates, the number of an
/// interrogation, the time of a clock command, and of every unit the addresses,
/// how often it goes out and whether it is for a test.
pub proof fn law_forms_have_their_fields(action: DispatchAction)
    ensures
        ({
            let fields = fields_of(action);
            &&& fields.contains(FormField::Ioa) <==> action is Read || operates(action)
            &&& fields.contains(FormField::Value) <==> operates(action)
            &&& fields.contains(FormField::Phase) <==> operates(action)
            &&& fields.contains(FormField::Qualifier) <==> operates(action)
            &&& fields.contains(FormField::CommonAddress) <==> is_a_unit(action)
            &&& fields.contains(FormField::OriginatorAddress) <==> is_a_unit(action)
            &&& fields.contains(FormField::Repeat) <==> is_a_unit(action)
            &&& fields.contains(FormField::Interval) <==> is_a_unit(action)
            &&& fields.contains(FormField::Test) <==> is_a_unit(action)
            &&& fields.contains(FormField::Qoi) <==> action is GeneralInterrogation
            &&& fields.contains(FormField::QccRequest) <==> action is CounterInterrogation
            &&& fields.contains(FormField::QccFreeze) <==> action is CounterInterrogation
            &&& fields.contains(FormField::Clock) <==> action is ClockSync
            &&& fields.no_duplicates()
        }),
{
    let fields = fields_of(action);
    if operates(action) {
        assert(fields[0] is Ioa && fields[1] is Value && fields[2] is Phase);
        assert(fields[3] is CommonAddress && fields[4] is OriginatorAddress);
        assert(fields[5] is Qualifier && fields[6] is Repeat && fields[7] is Interval);
        assert(fields[8] is Test);
    } else if action is Read {
        assert(fields[0] is Ioa && fields[1] is CommonAddress && fields[2] is OriginatorAddress);
        assert(fields[3] is Repeat && fields[4] is Interval && fields[5] is Test);
    } else if action is GeneralInterrogation || action is ClockSync {
        assert(fields[0] is CommonAddress && fields[1] is OriginatorAddress);
        assert(fields[2] is Qoi || fields[2] is Clock);
        assert(fields[3] is Repeat && fields[4] is Interval && fields[5] is Test);
    } else if action is CounterInterrogation {
        assert(fields[0] is CommonAddress && fields[1] is OriginatorAddress);
        assert(fields[2] is QccRequest && fields[3] is QccFreeze);
        assert(fields[4] is Repeat && fields[5] is Interval && fields[6] is Test);
    }
}

/// What is typed in a field is in that field and in no other; a field that is
/// switched holds no text, and only it is switched.
pub proof fn law_fields_hold_what_is_typed(
    form: FormState,
    field: FormField,
    other: FormField,
    text: Seq<char>,
)
    requires
        field != other,
    ensures
        ({
            let typed = form.with_text(field, text);
            let switches = field is Phase || field is Test;
            &&& typed.text(field) == (if switches {
                None
            } else {
                Some(text)
            })
            &&& typed.text(other) == form.text(other)
            &&& typed.phase == form.phase && typed.test == form.test
            &&& form.toggled(field).text(field) == form.text(field)
            &&& form.toggled(field).text(other) == form.text(other)
            &&& (form.toggled(field).phase != form.phase) <==> field is Phase
            &&& (form.toggled(field).test != form.test) <==> field is Test
            &&& !switches ==> form.text(field) is Some && form.shown(field) == form.text(field)->0
        }),
        form.text(FormField::Ioa) == Some(form.ioa),
        form.text(FormField::Value) == Some(form.value),
        form.text(FormField::CommonAddress) == Some(form.common_address),
        form.text(FormField::OriginatorAddress) == Some(form.originator_address),
        form.text(FormField::Qualifier) == Some(form.qualifier),
        form.text(FormField::Qoi) == Some(form.qoi),
        form.text(FormField::QccRequest) == Some(form.qcc_request),
        form.text(FormField::QccFreeze) == Some(form.qcc_freeze),
        form.text(FormField::Repeat) == Some(form.repeat),
        form.text(FormField::Interval) == Some(form.interval),
        form.text(FormField::Clock) == Some(form.clock),
        form.shown(FormField::Test) == if form.test {
            "1 / 开"@
        } else {
            "0 / 关"@
        },
{
}

/// Every field takes digits; the value also a sign and a point, and the time
/// letters and dashes. Nothing else is taken.
pub proof fn law_fields_take_their_characters(field: FormField, c: char)
    ensures
        ({
            let digit = c == '0' || c == '1' || c == '2' || c == '3' || c == '4' || c == '5' || c
                == '6' || c == '7' || c == '8' || c == '9';
            &&& digit ==> field_takes(field, c)
            &&& field is Value && (c == '+' || c == '-' || c == '.') ==> field_takes(field, c)
            &&& field is Clock && (c == '-' || c == '_' || ('a' <= c && c <= 'z') || ('A' <= c && c
                <= 'Z')) ==> field_takes(field, c)
            &&& field_takes(field, c) && !digit ==> field is Value || field is Clock
            &&& field_takes(field, c) && !digit && field is Value ==> c == '+' || c == '-' || c
                == '.'
            &&& field_takes(field, c) && !digit && field is Clock ==> c == '-' || c == '_' || (
            'a' <= c && c <= 'z') || ('A' <= c && c <= 'Z')
        }),
{
}

/// The first point of the table that the command operates is the one a form is
/// filled in for: with its address, and with its default, the middle of its range
/// or the one bound that it has; without any of these a state or a step is one,
/// and a set point stays as it is.
pub proof fn law_forms_are_filled_in_for_the_first_point(
    form: FormState,
    action: DispatchAction,
    points: Seq<DispatchPointView>,
    middles: Seq<Seq<char>>,
    index: int,
)
    requires
        0 <= index < points.len(),
        is_commanded_by(points[index], action),
        forall|i: int| 0 <= i < index ==> !is_commanded_by(#[trigger] points[i], action),
    ensures
        ({
            let after = form.hinted(action, points, middles);
            let point = points[index];
            &&& after == (FormState { ioa: after.ioa, value: after.value, ..form })
            &&& after.ioa == decimal(point.ioa as nat)
            &&& point.default_value matches Some(value) ==> after.value == value.plain
            &&& point.default_value is None && point.min is Some && point.max is Some
                ==> after.value == float_text(middles, index)
            &&& point.default_value is None && point.max is None ==> (point.min matches Some(min)
                ==> after.value == min.plain)
            &&& point.default_value is None && point.min is None ==> (point.max matches Some(max)
                ==> after.value == max.plain)
            &&& point.default_value is None && point.min is None && point.max is None
                ==> after.value == (if action is SingleControl || action is DoubleControl || action
                is RegulatingStep {
                "1"@
            } else {
                form.value
            })
        }),
{
    let kind = commanded_kind(action)->0;
    lemma_first_of_kind(points, kind, index);
}

/// The point is one that the command operates.
pub open spec fn is_commanded_by(point: DispatchPointView, action: DispatchAction) -> bool {
    match point.kind {
        DispatchPointKind::SingleControl => action is SingleControl,
        DispatchPointKind::DoubleControl => action is DoubleControl,
        DispatchPointKind::RegulatingStep => action is RegulatingStep,
        DispatchPointKind::NormalizedSetpoint => action is NormalizedSetpoint,
        DispatchPointKind::ScaledSetpoint => action is ScaledSetpoint,
        DispatchPointKind::FloatSetpoint => action is FloatSetpoint,
        _ => false,
    }
}

proof fn lemma_first_of_kind(
    points: Seq<DispatchPointView>,
    kind: DispatchPointKind,
    index: int,
)
    requires
        0 <= index < points.len(),
        points[index].kind == kind,
        forall|i: int| 0 <= i < index ==> (#[trigger] points[i]).kind != kind,
    ensures
        kind_position(points, kind) == Some(index),
    decreases points.len(),
{
    let fewer = points.drop_last();
    if index < fewer.len() {
        assert(fewer[index].kind == kind);
        assert forall|i: int| 0 <= i < index implies (#[trigger] fewer[i]).kind != kind by {
            assert(points[i].kind != kind);
        }
        lemma_first_of_kind(fewer, kind, index);
    } else {
        lemma_first_kind(fewer, kind);
        if let Some(found) = kind_position(fewer, kind) {
            assert(points[found].kind == kind);
        }
    }
}

/// Without a point that the command operates a form stays as it is.
pub proof fn law_forms_stay_without_a_point(
    form: FormState,
    action: DispatchAction,
    points: Seq<DispatchPointView>,
    middles: Seq<Seq<char>>,
)
    requires
        forall|i: int| 0 <= i < points.len() ==> !is_commanded_by(#[trigger] points[i], action),
    ensures
        form.hinted(action, points, middles) == form,
{
    if let Some(kind) = commanded_kind(action) {
        lemma_first_kind(points, kind);
        if let Some(found) = kind_position(points, kind) {
            assert(is_commanded_by(points[found], action));
        }
    }
}

/// A form is opened on its first field and without an error, and one for a value
/// with the first word of what the point shows.
pub proof fn law_forms_open_on_the_first_field(action: DispatchAction, point: PointRow)
    ensures
        PopupState::opened(action) == (PopupState { action, field: 0, error: Seq::empty() }),
        is_a_unit(action) ==> PopupState::opened(action).current_field() == Some(
            fields_of(action)[0],
        ),
        !is_a_unit(action) ==> PopupState::opened(action).current_field() is None,
        ({
            let popup = ValuePopupState::opened(point);
            &&& popup.ioa == point.ioa && popup.type_id == point.type_id && popup.name == point.name
                && popup.kind_name == point.kind_name
            &&& popup.error.len() == 0
            &&& point.value matches Some(text) ==> popup.value == first_word(text)
            &&& point.value is None ==> popup.value.len() == 0
        }),
{
}

/// A form begins with an interrogation of the station and of all counters, sent
/// once, not for a test, executed and at the present time.
pub proof fn law_forms_begin_with_the_usual(config: ToolConfig)
    ensures
        ({
            let form = FormState::first(config);
            &&& reads_as(form.qoi, 20)
            &&& reads_as(form.qcc_request, 5)
            &&& reads_as(form.qcc_freeze, 0)
            &&& reads_as(form.qualifier, 0)
            &&& reads_as(form.ioa, 201)
            &&& reads_as(form.repeat, 1)
            &&& reads_as(form.interval, 200)
            &&& reads_as(form.common_address, config.dispatch.common_address as int)
            &&& reads_as(form.originator_address, config.protocol.originator_address as int)
            &&& lowered(trimmed(form.clock)) == "now"@
            &&& form.phase is Execute
            &&& !form.test
        }),
{
    lemma_first_texts();
    law_decimals_are_read_back(201);
    law_decimals_are_read_back(200);
    law_decimals_are_read_back(20);
    law_decimals_are_read_back(5);
    law_decimals_are_read_back(1);
    law_decimals_are_read_back(0);
    law_decimals_are_read_back(config.dispatch.common_address as nat);
    law_decimals_are_read_back(config.protocol.originator_address as nat);
}

} // verus!
