//! What is shown: texts, and the shades in which they stand.

use crate::clock::{has_date, local_from_millis, LocalTime};
use crate::model::{
    log_views, AppSnapshot, ConnectionPhase, ConnectionState, ConnectionView, Direction,
    DispatchAction, FaultPolicy, LogCategory, LogEntry, LogView, MetaView, PointRow, PointView,
    ProtocolMeta, Severity, SnapshotState, UploadKind,
};
use crate::text::{cat, cat_number, decimal, decimal_text, join, joined, texts};
use crate::ui::area::Area;
use crate::ui::form::{
    action_fields, fields_of, DispatchForm, DispatchPopup, FormState, PopupState, CollectValuePopup,
    ValuePopupState,
};
use crate::ui::screen::{UiState, UiView};
use vstd::prelude::*;

verus! {

/// How a piece of text is set off.
#[derive(Debug, Clone, Copy, PartialEq, Eq, Structural)]
pub enum Shade {
    /// As the text around it.
    Plain,
    Base,
    Selected,
    Header,
    Label,
    Success,
    Warning,
    Error,
    Badge,
    /// A report that the operator triggered.
    Report,
    Incoming,
    Outgoing,
    Internal,
}

/// A piece of text.
#[derive(Debug)]
pub struct Piece {
    pub text: String,
    pub shade: Shade,
}

#[verifier::ext_equal]
pub struct PieceView {
    pub text: Seq<char>,
    pub shade: Shade,
}

impl View for Piece {
    type V = PieceView;

    open spec fn view(&self) -> PieceView {
        PieceView { text: self.text@, shade: self.shade }
    }
}

pub open spec fn piece_views(pieces: Seq<Piece>) -> Seq<PieceView> {
    pieces.map_values(|piece: Piece| piece@)
}

pub open spec fn line_views(lines: Seq<Vec<Piece>>) -> Seq<Seq<PieceView>> {
    lines.map_values(|line: Vec<Piece>| piece_views(line@))
}

pub open spec fn shaded(text: Seq<char>, shade: Shade) -> PieceView {
    PieceView { text, shade }
}

fn piece(text: &str, shade: Shade) -> (result: Piece)
    ensures
        result@ == shaded(text@, shade),
{
    Piece { text: text.to_owned(), shade }
}

// ---------------------------------------------------------------------------
// Log entries.
pub open spec fn category_text(category: LogCategory) -> Seq<char> {
    match category {
        LogCategory::Connection => "连接"@,
        LogCategory::Protocol => "报文"@,
        LogCategory::ActiveUpload => "主动"@,
        LogCategory::CommandDivider => "分隔"@,
        LogCategory::Interrogation => "召唤"@,
        LogCategory::Control => "控制"@,
        LogCategory::Configuration => "配置"@,
        LogCategory::KeepAlive => "保活"@,
    }
}

pub fn category_label(category: LogCategory) -> (result: &'static str)
    ensures
        result@ == category_text(category),
{
    match category {
        LogCategory::Connection => "连接",
        LogCategory::Protocol => "报文",
        LogCategory::ActiveUpload => "主动",
        LogCategory::CommandDivider => "分隔",
        LogCategory::Interrogation => "召唤",
        LogCategory::Control => "控制",
        LogCategory::Configuration => "配置",
        LogCategory::KeepAlive => "保活",
    }
}

/// The text, with blanks behind it up to a number of characters.
pub open spec fn padded(text: Seq<char>, width: nat) -> Seq<char>
    decreases width - text.len(),
{
    if text.len() >= width {
        text
    } else {
        padded(text.push(' '), width)
    }
}

fn pad(text: &str, width: usize) -> (result: String)
    ensures
        result@ == padded(text@, width as nat),
{
    proof {
        reveal_strlit(" ");
        assert(" "@ =~= seq![' ']);
    }
    let mut result = text.to_owned();
    let mut length: usize = text.unicode_len();
    while length < width
        invariant
            length == result@.len(),
            " "@ == seq![' '],
            padded(result@, width as nat) == padded(text@, width as nat),
        decreases width - length,
    {
        let ghost before = result@;
        result = cat(result, " ");
        assert(result@ =~= before.push(' '));
        length += 1;
    }
    result
}

/// A number of two digits.
pub open spec fn two_digits(number: int) -> Seq<char> {
    if number < 10 {
        "0"@ + decimal(number as nat)
    } else {
        decimal(number as nat)
    }
}

pub open spec fn three_digits(number: int) -> Seq<char> {
    if number < 10 {
        "00"@ + decimal(number as nat)
    } else if number < 100 {
        "0"@ + decimal(number as nat)
    } else {
        decimal(number as nat)
    }
}

fn cat_two(head: String, number: u32) -> (result: String)
    ensures
        result@ == head@ + two_digits(number as int),
{
    let ghost before = head@;
    if number < 10 {
        let result = cat_number(cat(head, "0"), number as u64);
        assert(result@ =~= before + ("0"@ + decimal(number as nat)));
        result
    } else {
        cat_number(head, number as u64)
    }
}

fn cat_three(head: String, number: u32) -> (result: String)
    ensures
        result@ == head@ + three_digits(number as int),
{
    let ghost before = head@;
    if number < 10 {
        let result = cat_number(cat(head, "00"), number as u64);
        assert(result@ =~= before + ("00"@ + decimal(number as nat)));
        result
    } else if number < 100 {
        let result = cat_number(cat(head, "0"), number as u64);
        assert(result@ =~= before + ("0"@ + decimal(number as nat)));
        result
    } else {
        cat_number(head, number as u64)
    }
}

/// The time of day, with milliseconds. A second that is inserted counts as the
/// sixtieth.
pub open spec fn clock_text(value: LocalTime) -> Seq<char> {
    two_digits(value.hour as int) + ":"@ + two_digits(value.minute as int) + ":"@ + two_digits(
        value.second + value.subsec_millis as int / 1000,
    ) + "."@ + three_digits(value.subsec_millis as int % 1000)
}

pub fn clock_label(value: LocalTime) -> (result: String)
    requires
        value.in_range(),
    ensures
        result@ == clock_text(value),
{
    let text = cat_two(String::new(), value.hour);
    assert(text@ =~= two_digits(value.hour as int));
    let text = cat_two(cat(text, ":"), value.minute);
    let text = cat_two(cat(text, ":"), value.second + value.subsec_millis / 1000);
    cat_three(cat(text, "."), value.subsec_millis % 1000)
}

/// A moment is beyond what can be shown.
pub open spec fn beyond_time(timestamp_ms: u64) -> bool {
    !has_date(timestamp_ms as int)
}

/// The text is that of a moment, in some zone.
pub open spec fn shows_time(timestamp_ms: u64, text: Seq<char>) -> bool {
    if beyond_time(timestamp_ms) {
        text == "时间超界"@
    } else {
        exists|value: LocalTime|
            value.stands_for(timestamp_ms as int) && text == #[trigger] clock_text(value)
    }
}

pub fn format_time(timestamp_ms: u64) -> (result: String)
    ensures
        shows_time(timestamp_ms, result@),
{
    if timestamp_ms > i64::MAX as u64 {
        return "时间超界".to_owned();
    }
    match local_from_millis(timestamp_ms as i64) {
        Some(value) => clock_label(value),
        None => "时间超界".to_owned(),
    }
}

pub fn format_optional_time(value: Option<u64>) -> (result: String)
    ensures
        match value {
            Some(timestamp_ms) => shows_time(timestamp_ms, result@),
            None => result@ == "—"@,
        },
{
    match value {
        Some(timestamp_ms) => format_time(timestamp_ms),
        None => "—".to_owned(),
    }
}

/// The line of an entry, with the time as it is shown.
pub open spec fn entry_text(time: Seq<char>, entry: LogView) -> Seq<char> {
    time + " "@ + padded(entry.side.label_text(), 3) + " "@ + padded(
        entry.direction.label_text(),
        2,
    ) + " "@ + padded(category_text(entry.category), 4) + " "@ + entry.summary
}

pub fn log_line(time: &str, entry: &LogEntry) -> (result: String)
    ensures
        result@ == entry_text(time@, entry@),
{
    let side = pad(entry.side.label(), 3);
    let direction = pad(entry.direction.label(), 2);
    let category = pad(category_label(entry.category), 4);
    let text = cat(cat(time.to_owned(), " "), side.as_str());
    let text = cat(cat(text, " "), direction.as_str());
    let text = cat(cat(text, " "), category.as_str());
    cat(cat(text, " "), entry.summary.as_str())
}

pub fn log_text(entry: &LogEntry) -> (result: String)
    ensures
        exists|time: Seq<char>|
            shows_time(entry.timestamp_ms, time) && result@ == #[trigger] entry_text(time, entry@),
{
    let time = format_time(entry.timestamp_ms);
    log_line(time.as_str(), entry)
}

/// The shade of an entry: by what it means, else by where it comes from.
pub open spec fn entry_shade(entry: LogView) -> Shade {
    if entry.category is CommandDivider {
        Shade::Selected
    } else {
        match entry.severity {
            Severity::Error => Shade::Error,
            Severity::Warning => Shade::Warning,
            Severity::Success => Shade::Success,
            Severity::Normal => if entry.category is ActiveUpload {
                Shade::Report
            } else {
                match entry.direction {
                    Direction::Incoming => Shade::Incoming,
                    Direction::Outgoing => Shade::Outgoing,
                    Direction::Internal => Shade::Internal,
                }
            },
        }
    }
}

pub fn log_shade(entry: &LogEntry) -> (result: Shade)
    ensures
        result == entry_shade(entry@),
{
    if entry.category == LogCategory::CommandDivider {
        return Shade::Selected;
    }
    match entry.severity {
        Severity::Error => Shade::Error,
        Severity::Warning => Shade::Warning,
        Severity::Success => Shade::Success,
        Severity::Normal => {
            if entry.category == LogCategory::ActiveUpload {
                Shade::Report
            } else {
                match entry.direction {
                    Direction::Incoming => Shade::Incoming,
                    Direction::Outgoing => Shade::Outgoing,
                    Direction::Internal => Shade::Internal,
                }
            }
        },
    }
}

pub open spec fn digit_of(set: bool) -> Seq<char> {
    if set {
        "1"@
    } else {
        "0"@
    }
}

fn digit_label(set: bool) -> (result: &'static str)
    ensures
        result@ == digit_of(set),
{
    if set {
        "1"
    } else {
        "0"
    }
}

/// The header fields of a unit, on one line.
pub open spec fn meta_text(meta: MetaView) -> Seq<char> {
    "TypeID="@ + meta.type_id + "  COT="@ + meta.cot + "  CA="@ + decimal(
        meta.common_address as nat,
    ) + "  OA="@ + decimal(meta.originator_address as nat) + "  SQ="@ + digit_of(meta.sequence)
        + "  Test="@ + digit_of(meta.test) + "  Negative="@ + digit_of(meta.negative)
}

fn meta_label(meta: &ProtocolMeta) -> (result: String)
    ensures
        result@ == meta_text(meta@),
{
    let text = cat("TypeID=".to_owned(), meta.type_id.as_str());
    let text = cat(cat(text, "  COT="), meta.cot.as_str());
    let text = cat_number(cat(text, "  CA="), meta.common_address as u64);
    let text = cat_number(cat(text, "  OA="), meta.originator_address as u64);
    let text = cat(cat(text, "  SQ="), digit_label(meta.sequence));
    let text = cat(cat(text, "  Test="), digit_label(meta.test));
    cat(cat(text, "  Negative="), digit_label(meta.negative))
}

pub open spec fn address_texts(addresses: Seq<u32>) -> Seq<Seq<char>> {
    addresses.map_values(|address: u32| decimal(address as nat))
}

pub open spec fn addresses_text(addresses: Seq<u32>) -> Seq<char> {
    "IOA=["@ + joined(address_texts(addresses), ", "@) + "]"@
}

fn addresses_label(addresses: &Vec<u32>) -> (result: String)
    ensures
        result@ == addresses_text(addresses@),
{
    let mut numbers: Vec<String> = Vec::new();
    let mut index: usize = 0;
    while index < addresses.len()
        invariant
            index <= addresses@.len(),
            numbers@.len() == index,
            forall|i: int|
                0 <= i < index ==> (#[trigger] numbers@[i])@ == decimal(addresses@[i] as nat),
        decreases addresses.len() - index,
    {
        numbers.push(decimal_text(addresses[index] as u128));
        index += 1;
    }
    assert(texts(numbers@) =~= address_texts(addresses@));
    let list = join(&numbers, ", ");
    cat(cat("IOA=[".to_owned(), list.as_str()), "]")
}

/// The lines of an entry in full, below its own line.
pub open spec fn detail_lines(entry: LogView) -> Seq<Seq<char>> {
    let head = match entry.protocol {
        Some(meta) => seq![
            Seq::empty(),
            meta_text(meta),
            addresses_text(meta.ioas),
            Seq::empty(),
        ],
        None => seq![Seq::<char>::empty()],
    };
    head + entry.details
}

pub fn log_detail(entry: &LogEntry) -> (result: Vec<String>)
    ensures
        texts(result@) == detail_lines(entry@),
{
    let mut lines: Vec<String> = vec![String::new()];
    if let Some(meta) = &entry.protocol {
        lines.push(meta_label(meta));
        lines.push(addresses_label(&meta.ioas));
        lines.push(String::new());
        assert(texts(lines@) =~= seq![
            Seq::empty(),
            meta_text(meta@),
            addresses_text(meta@.ioas),
            Seq::empty(),
        ]);
    } else {
        assert(texts(lines@) =~= seq![Seq::<char>::empty()]);
    }
    let ghost head = texts(lines@);
    let mut more = crate::text::copy_texts(&entry.details);
    let ghost tail = texts(more@);
    lines.append(&mut more);
    assert(texts(lines@) =~= head + tail);
    lines
}

// ---------------------------------------------------------------------------
// The status page.
pub open spec fn phase_shade(phase: ConnectionPhase) -> Shade {
    match phase {
        ConnectionPhase::Active => Shade::Success,
        ConnectionPhase::Error => Shade::Error,
        ConnectionPhase::ReconnectWait => Shade::Warning,
        ConnectionPhase::Connecting => Shade::Warning,
        ConnectionPhase::Starting => Shade::Warning,
        ConnectionPhase::Stopping => Shade::Warning,
        _ => Shade::Badge,
    }
}

fn shade_of_phase(phase: ConnectionPhase) -> (result: Shade)
    ensures
        result == phase_shade(phase),
{
    match phase {
        ConnectionPhase::Active => Shade::Success,
        ConnectionPhase::Error => Shade::Error,
        ConnectionPhase::ReconnectWait
        | ConnectionPhase::Connecting
        | ConnectionPhase::Starting
        | ConnectionPhase::Stopping => Shade::Warning,
        _ => Shade::Badge,
    }
}

pub open spec fn or_dash(text: Seq<char>) -> Seq<char> {
    if text.len() == 0 {
        "—"@
    } else {
        text
    }
}

pub open spec fn labelled(label: Seq<char>, text: Seq<char>, shade: Shade) -> Seq<PieceView> {
    seq![shaded(label, Shade::Label), shaded(text, shade)]
}

fn labelled_line(label: &str, text: &str, shade: Shade) -> (result: Vec<Piece>)
    ensures
        piece_views(result@) == labelled(label@, text@, shade),
{
    let line: Vec<Piece> = vec![piece(label, Shade::Label), piece(text, shade)];
    assert(piece_views(line@) =~= labelled(label@, text@, shade));
    line
}

/// The lines about a connection, with the times as they are shown.
pub open spec fn connection_lines(
    view: ConnectionState,
    received: Seq<char>,
    sent: Seq<char>,
) -> Seq<Seq<PieceView>> {
    seq![
        labelled("状态  "@, view.phase.label_text(), phase_shade(view.phase)),
        labelled("端点  "@, view.endpoint, Shade::Plain),
        labelled(
            "对端  "@,
            match view.peer {
                Some(peer) => peer,
                None => "—"@,
            },
            Shade::Plain,
        ),
        labelled("说明  "@, or_dash(view.detail), Shade::Plain),
        labelled("最后接收  "@, received, Shade::Plain),
        labelled("最后发送  "@, sent, Shade::Plain),
    ]
}

pub fn connection_text(view: &ConnectionView, received: &str, sent: &str) -> (result: Vec<
    Vec<Piece>,
>)
    ensures
        line_views(result@) == connection_lines(view@, received@, sent@),
{
    let peer = match &view.peer {
        Some(peer) => peer.as_str(),
        None => "—",
    };
    let detail = if view.detail.as_str().unicode_len() == 0 {
        "—"
    } else {
        view.detail.as_str()
    };
    let lines: Vec<Vec<Piece>> = vec![
        labelled_line("状态  ", view.phase.label(), shade_of_phase(view.phase)),
        labelled_line("端点  ", view.endpoint.as_str(), Shade::Plain),
        labelled_line("对端  ", peer, Shade::Plain),
        labelled_line("说明  ", detail, Shade::Plain),
        labelled_line("最后接收  ", received, Shade::Plain),
        labelled_line("最后发送  ", sent, Shade::Plain),
    ];
    assert(line_views(lines@) =~= connection_lines(view@, received@, sent@));
    lines
}

/// Whether a round is under way.
pub open spec fn round_piece(pending: bool) -> PieceView {
    if pending {
        shaded("等待 ACTTERM"@, Shade::Warning)
    } else {
        shaded("空闲"@, Shade::Success)
    }
}

fn round_state(pending: bool) -> (result: Piece)
    ensures
        result@ == round_piece(pending),
{
    if pending {
        piece("等待 ACTTERM", Shade::Warning)
    } else {
        piece("空闲", Shade::Success)
    }
}

/// The lines about what is under way, above the latest system events.
pub open spec fn status_lines(state: UiView, snapshot: SnapshotState) -> Seq<Seq<PieceView>> {
    seq![
        seq![
            shaded("总召事务  "@, Shade::Label),
            round_piece(snapshot.general_pending),
            shaded("    "@, Shade::Plain),
            shaded("电度事务  "@, Shade::Label),
            round_piece(snapshot.energy_pending),
            shaded("    "@, Shade::Plain),
            shaded("应用回执  "@, Shade::Label),
            shaded(
                decimal(snapshot.application_pending as nat),
                if snapshot.application_pending == 0 {
                    Shade::Success
                } else {
                    Shade::Warning
                },
            ),
        ],
        labelled(
            "下一条采集控制响应  "@,
            match snapshot.fault_policy {
                Some(policy) => policy.label_text(),
                None => "无（使用点位默认策略）"@,
            },
            Shade::Warning,
        ),
        labelled("链路参数  "@, state.protocol_status, Shade::Plain),
        labelled("背压参数  "@, state.queue_status, Shade::Plain),
        seq![shaded("最近系统事件"@, Shade::Label)],
    ]
}

pub fn status_text(state: &UiState, snapshot: &AppSnapshot) -> (result: Vec<Vec<Piece>>)
    ensures
        line_views(result@) == status_lines(state@, snapshot@),
{
    let count = decimal_text(snapshot.application_pending as u128);
    let first: Vec<Piece> = vec![
        piece("总召事务  ", Shade::Label),
        round_state(snapshot.general_pending),
        piece("    ", Shade::Plain),
        piece("电度事务  ", Shade::Label),
        round_state(snapshot.energy_pending),
        piece("    ", Shade::Plain),
        piece("应用回执  ", Shade::Label),
        piece(
            count.as_str(),
            if snapshot.application_pending == 0 {
                Shade::Success
            } else {
                Shade::Warning
            },
        ),
    ];
    assert(piece_views(first@) =~= status_lines(state@, snapshot@)[0]);
    let policy = match snapshot.fault_policy {
        Some(policy) => policy.label(),
        None => "无（使用点位默认策略）",
    };
    let last: Vec<Piece> = vec![piece("最近系统事件", Shade::Label)];
    assert(piece_views(last@) =~= status_lines(state@, snapshot@)[4]);
    let lines: Vec<Vec<Piece>> = vec![
        first,
        labelled_line("下一条采集控制响应  ", policy, Shade::Warning),
        labelled_line("链路参数  ", state.protocol_status.as_str(), Shade::Plain),
        labelled_line("背压参数  ", state.queue_status.as_str(), Shade::Plain),
        last,
    ];
    assert(line_views(lines@) =~= status_lines(state@, snapshot@));
    lines
}

/// The last entries of a log.
pub open spec fn last_entries(logs: Seq<LogView>, count: nat) -> Seq<LogView> {
    if logs.len() <= count {
        logs
    } else {
        logs.skip(logs.len() - count)
    }
}

/// The four latest system events.
pub fn recent_system_events(snapshot: &AppSnapshot) -> (result: Vec<LogEntry>)
    ensures
        log_views(result@) == last_entries(snapshot@.system_logs, 4),
{
    let logs = &snapshot.system_logs;
    let start: usize = if logs.len() > 4 {
        logs.len() - 4
    } else {
        0
    };
    let mut result: Vec<LogEntry> = Vec::new();
    let mut index: usize = start;
    while index < logs.len()
        invariant
            start <= index <= logs@.len(),
            result@.len() == index - start,
            forall|i: int| 0 <= i < result@.len() ==> (#[trigger] result@[i])@ == logs@[start + i]@,
        decreases logs.len() - index,
    {
        result.push(logs[index].copy());
        index += 1;
    }
    assert(log_views(result@) =~= last_entries(snapshot@.system_logs, 4));
    result
}

// ---------------------------------------------------------------------------
// Menus.
/// A number in two places, behind a blank.
pub open spec fn numbered(index: int, label: Seq<char>) -> Seq<char> {
    (if index + 1 < 10 {
        "  "@
    } else {
        " "@
    }) + decimal((index + 1) as nat) + ". "@ + label
}

fn numbered_label(index: usize, label: &str) -> (result: String)
    requires
        index < 99,
    ensures
        result@ == numbered(index as int, label@),
{
    let head = if index + 1 < 10 {
        "  ".to_owned()
    } else {
        " ".to_owned()
    };
    cat(cat(cat_number(head, (index + 1) as u64), ". "), label)
}

pub open spec fn choice_shade(index: int, selection: int) -> Shade {
    if index == selection {
        Shade::Selected
    } else {
        Shade::Base
    }
}

fn shade_of_choice(index: usize, selection: usize) -> (result: Shade)
    ensures
        result == choice_shade(index as int, selection as int),
{
    if index == selection {
        Shade::Selected
    } else {
        Shade::Base
    }
}

/// The reports that can be triggered.
pub open spec fn upload_menu(selection: usize) -> Seq<PieceView> {
    Seq::new(
        11,
        |i: int|
            shaded(
                numbered(i, UploadKind::ALL@[i].label_text()),
                choice_shade(i, selection as int),
            ),
    )
}

pub fn collect_commands(selection: usize) -> (result: Vec<Piece>)
    ensures
        piece_views(result@) == upload_menu(selection),
{
    let mut items: Vec<Piece> = Vec::new();
    let mut index: usize = 0;
    while index < 11
        invariant
            index <= 11,
            items@.len() == index,
            forall|i: int| 0 <= i < index ==> (#[trigger] items@[i])@ == upload_menu(selection)[i],
        decreases 11 - index,
    {
        let text = numbered_label(index, UploadKind::ALL[index].label());
        items.push(Piece { text, shade: shade_of_choice(index, selection) });
        index += 1;
    }
    assert(piece_views(items@) =~= upload_menu(selection));
    items
}

/// The commands that can be given.
pub open spec fn action_menu(selection: usize) -> Seq<PieceView> {
    Seq::new(
        13,
        |i: int|
            shaded(
                numbered(i, DispatchAction::ALL@[i].label_text()),
                choice_shade(i, selection as int),
            ),
    )
}

pub fn dispatch_commands(selection: usize) -> (result: Vec<Piece>)
    ensures
        piece_views(result@) == action_menu(selection),
{
    let mut items: Vec<Piece> = Vec::new();
    let mut index: usize = 0;
    while index < 13
        invariant
            index <= 13,
            items@.len() == index,
            forall|i: int| 0 <= i < index ==> (#[trigger] items@[i])@ == action_menu(selection)[i],
        decreases 13 - index,
    {
        let text = numbered_label(index, DispatchAction::ALL[index].label());
        items.push(Piece { text, shade: shade_of_choice(index, selection) });
        index += 1;
    }
    assert(piece_views(items@) =~= action_menu(selection));
    items
}

/// The responses that can be chosen, the first of which is none.
pub open spec fn policy_choice(index: int) -> Option<FaultPolicy> {
    if index == 0 {
        None
    } else {
        Some(FaultPolicy::ALL@[index - 1])
    }
}

pub open spec fn policy_line(index: int, active: Option<FaultPolicy>) -> Seq<char> {
    " "@ + (if policy_choice(index) == active {
        "●"@
    } else {
        "○"@
    }) + " "@ + (match policy_choice(index) {
        Some(policy) => policy.label_text(),
        None => "清除等待策略 / 使用点位默认"@,
    })
}

pub open spec fn policy_menu(selection: usize, active: Option<FaultPolicy>) -> Seq<PieceView> {
    Seq::new(8, |i: int| shaded(policy_line(i, active), choice_shade(i, selection as int)))
}

pub fn fault_choices(selection: usize, active: Option<FaultPolicy>) -> (result: Vec<Piece>)
    ensures
        piece_views(result@) == policy_menu(selection, active),
{
    let mut items: Vec<Piece> = Vec::new();
    let mut index: usize = 0;
    while index < 8
        invariant
            index <= 8,
            items@.len() == index,
            forall|i: int|
                0 <= i < index ==> (#[trigger] items@[i])@ == policy_menu(selection, active)[i],
        decreases 8 - index,
    {
        let choice = if index == 0 {
            None
        } else {
            Some(FaultPolicy::ALL[index - 1])
        };
        let label = match choice {
            Some(policy) => policy.label(),
            None => "清除等待策略 / 使用点位默认",
        };
        let chosen = match (choice, active) {
            (Some(one), Some(other)) => one == other,
            (None, None) => true,
            _ => false,
        };
        let marker = if chosen {
            "●"
        } else {
            "○"
        };
        let text = cat(cat(cat(" ".to_owned(), marker), " "), label);
        items.push(Piece { text, shade: shade_of_choice(index, selection) });
        index += 1;
    }
    assert(piece_views(items@) =~= policy_menu(selection, active));
    items
}

// ---------------------------------------------------------------------------
// Tables and popups.
/// The cells of a row, with its time as it is shown.
pub open spec fn row_cells(point: PointRow, time: Seq<char>) -> Seq<Seq<char>> {
    seq![
        decimal(point.ioa as nat),
        point.name,
        point.kind_name,
        match point.value {
            Some(value) => value,
            None => "—"@,
        },
        point.quality,
        time,
    ]
}

pub fn point_cells(point: &PointView, time: String) -> (result: Vec<String>)
    ensures
        texts(result@) == row_cells(point@, time@),
{
    let value = match &point.value {
        Some(value) => value.clone(),
        None => "—".to_owned(),
    };
    let cells: Vec<String> = vec![
        decimal_text(point.ioa as u128),
        point.name.clone(),
        point.kind_name.clone(),
        value,
        point.quality.clone(),
        time,
    ];
    assert(texts(cells@) =~= row_cells(point@, time@));
    cells
}

/// The rows of the form: the label and the text of each field.
pub open spec fn form_lines(popup: PopupState, form: FormState) -> Seq<Seq<PieceView>> {
    let fields = fields_of(popup.action);
    Seq::new(
        fields.len(),
        |i: int|
            seq![
                shaded(fields[i].label_text(), choice_shade(i, popup.field as int)),
                shaded(form.shown(fields[i]), choice_shade(i, popup.field as int)),
            ],
    )
}

pub fn form_rows(popup: &DispatchPopup, form: &DispatchForm) -> (result: Vec<Vec<Piece>>)
    ensures
        line_views(result@) == form_lines(popup@, form@),
{
    let fields = action_fields(popup.action);
    let mut rows: Vec<Vec<Piece>> = Vec::new();
    let mut index: usize = 0;
    while index < fields.len()
        invariant
            index <= fields@.len(),
            fields@ == fields_of(popup@.action),
            rows@.len() == index,
            forall|i: int|
                0 <= i < index ==> piece_views((#[trigger] rows@[i])@) == form_lines(
                    popup@,
                    form@,
                )[i],
        decreases fields.len() - index,
    {
        let field = fields[index];
        let shade = shade_of_choice(index, popup.field);
        let shown = form.display_value(field);
        let row: Vec<Piece> = vec![piece(field.label(), shade), Piece { text: shown, shade }];
        assert(piece_views(row@) =~= form_lines(popup@, form@)[index as int]);
        rows.push(row);
        index += 1;
    }
    assert(line_views(rows@) =~= form_lines(popup@, form@));
    rows
}

/// The lines of the popup of a point.
pub open spec fn value_lines(popup: ValuePopupState) -> Seq<Seq<PieceView>> {
    seq![
        seq![
            shaded(
                "IOA="@ + decimal(popup.ioa as nat) + "  名称="@ + popup.name + "  类型="@
                    + popup.kind_name,
                Shade::Plain,
            ),
        ],
        labelled("新值  "@, popup.value, Shade::Selected),
    ]
}

pub fn value_text(popup: &CollectValuePopup) -> (result: Vec<Vec<Piece>>)
    ensures
        line_views(result@) == value_lines(popup@),
{
    let text = cat_number("IOA=".to_owned(), popup.ioa as u64);
    let text = cat(cat(text, "  名称="), popup.name.as_str());
    let text = cat(cat(text, "  类型="), popup.kind_name.as_str());
    let first: Vec<Piece> = vec![Piece { text, shade: Shade::Plain }];
    assert(piece_views(first@) =~= value_lines(popup@)[0]);
    let lines: Vec<Vec<Piece>> = vec![
        first,
        labelled_line("新值  ", popup.value.as_str(), Shade::Selected),
    ];
    assert(line_views(lines@) =~= value_lines(popup@));
    lines
}

/// What is said on a screen that is too small.
pub open spec fn small_screen_text(screen: Area) -> Seq<char> {
    "终端尺寸过小：当前 "@ + decimal(screen.width as nat) + "×"@ + decimal(screen.height as nat)
        + "，至少需要 80×24"@
}

pub fn small_screen_label(screen: Area) -> (result: String)
    ensures
        result@ == small_screen_text(screen),
{
    let text = cat_number("终端尺寸过小：当前 ".to_owned(), screen.width as u64);
    let text = cat_number(cat(text, "×"), screen.height as u64);
    cat(text, "，至少需要 80×24")
}

// ---------------------------------------------------------------------------
// Laws of what is shown.
/// An entry stands out by its weight: an error, a warning and a success each in
/// its own shade, whichever way it went, and the marks of commands before all. An
/// ordinary entry shows the way that it went, or that the operator asked for it.
pub proof fn law_entries_stand_out_by_weight(entry: LogView)
    ensures
        ({
            let shade = entry_shade(entry);
            let marked = entry.category is CommandDivider;
            &&& shade is Selected <==> marked
            &&& !marked ==> (shade is Error <==> entry.severity is Error)
            &&& !marked ==> (shade is Warning <==> entry.severity is Warning)
            &&& !marked ==> (shade is Success <==> entry.severity is Success)
            &&& !marked && entry.severity is Normal ==> {
                &&& shade is Report <==> entry.category is ActiveUpload
                &&& entry.category !is ActiveUpload ==> (shade is Incoming <==> entry.direction
                    is Incoming)
                &&& entry.category !is ActiveUpload ==> (shade is Outgoing <==> entry.direction
                    is Outgoing)
                &&& entry.category !is ActiveUpload ==> (shade is Internal <==> entry.direction
                    is Internal)
            }
        }),
{
}

/// A connection stands out as good where it is active, as bad where it failed,
/// and as on its way where it connects, starts, stops or waits to connect again.
pub proof fn law_connections_stand_out_by_phase(phase: ConnectionPhase)
    ensures
        phase_shade(phase) is Success <==> phase is Active,
        phase_shade(phase) is Error <==> phase is Error,
        phase_shade(phase) is Warning <==> phase is ReconnectWait || phase is Connecting || phase
            is Starting || phase is Stopping,
{
}

/// A text is filled up with blanks behind it, to no less than the width.
pub proof fn law_texts_are_filled_up(text: Seq<char>, width: nat)
    ensures
        ({
            let full = padded(text, width);
            &&& full.len() == (if text.len() < width {
                width
            } else {
                text.len()
            })
            &&& full.take(text.len() as int) == text
            &&& forall|i: int| text.len() <= i < full.len() ==> #[trigger] full[i] == ' '
        }),
    decreases width - text.len(),
{
    if text.len() < width {
        let longer = text.push(' ');
        law_texts_are_filled_up(longer, width);
        let full = padded(text, width);
        assert(full.take(longer.len() as int) == longer);
        assert forall|i: int| text.len() <= i < full.len() implies #[trigger] full[i] == ' ' by {
            if i == text.len() {
                assert(full.take(longer.len() as int)[i] == longer[i]);
            }
        }
        assert(full.take(text.len() as int) =~= text) by {
            assert forall|i: int| 0 <= i < text.len() implies full[i] == text[i] by {
                assert(full.take(longer.len() as int)[i] == longer[i]);
            }
        }
    } else {
        assert(text.take(text.len() as int) =~= text);
    }
}

/// Two digits are two digits of the number, and three are three.
pub proof fn law_digits_are_filled_up(number: int)
    ensures
        0 <= number < 100 ==> two_digits(number) == seq![
            crate::text::digit_char(number / 10),
            crate::text::digit_char(number % 10),
        ],
        0 <= number < 1000 ==> three_digits(number) == seq![
            crate::text::digit_char(number / 100),
            crate::text::digit_char(number / 10 % 10),
            crate::text::digit_char(number % 10),
        ],
{
    reveal_strlit("0");
    reveal_strlit("00");
    reveal_with_fuel(decimal, 4);
    if 0 <= number < 100 {
        assert(two_digits(number) =~= seq![
            crate::text::digit_char(number / 10),
            crate::text::digit_char(number % 10),
        ]);
    }
    if 0 <= number < 1000 {
        assert(three_digits(number) =~= seq![
            crate::text::digit_char(number / 100),
            crate::text::digit_char(number / 10 % 10),
            crate::text::digit_char(number % 10),
        ]);
    }
}

/// A time is shown by hour, minute, second and millisecond, filled up and in this
/// order.
pub proof fn law_times_are_shown_to_the_millisecond(value: LocalTime)
    requires
        value.in_range(),
        value.subsec_millis < 1000,
    ensures
        clock_text(value) == two_digits(value.hour as int) + ":"@ + two_digits(value.minute as int)
            + ":"@ + two_digits(value.second as int) + "."@ + three_digits(
            value.subsec_millis as int,
        ),
{
}

/// The last entries are shown in their order, as many as there are or as are
/// asked for.
pub proof fn law_the_last_entries_are_shown(logs: Seq<LogView>, count: nat)
    ensures
        ({
            let last = last_entries(logs, count);
            &&& last.len() == (if logs.len() < count {
                logs.len()
            } else {
                count
            })
            &&& forall|i: int|
                0 <= i < last.len() ==> #[trigger] last[i] == logs[logs.len() - last.len() + i]
        }),
{
}

/// A menu shows each choice in its line, numbered from one, and the line that is
/// chosen alone stands out.
pub proof fn law_menus_show_the_choice(selection: usize, i: int)
    ensures
        upload_menu(selection).len() == 11,
        action_menu(selection).len() == 13,
        0 <= i < 11 ==> (upload_menu(selection)[i].shade is Selected <==> i == selection),
        0 <= i < 13 ==> (action_menu(selection)[i].shade is Selected <==> i == selection),
        0 <= i < 11 ==> upload_menu(selection)[i].text == numbered(
            i,
            crate::ui::screen::listed_report(i).label_text(),
        ),
        0 <= i < 13 ==> action_menu(selection)[i].text == numbered(
            i,
            crate::ui::screen::listed_command(i).label_text(),
        ),
{
}

/// The list of policies marks the one in force, and no other; the first line is
/// for none.
pub proof fn law_the_policy_in_force_is_marked(
    selection: usize,
    active: Option<FaultPolicy>,
    i: int,
)
    requires
        0 <= i < 8,
    ensures
        ({
            let line = policy_menu(selection, active)[i];
            let policy = crate::ui::screen::listed_policy(i);
            let name = match policy {
                Some(policy) => policy.label_text(),
                None => "清除等待策略 / 使用点位默认"@,
            };
            &&& policy_menu(selection, active).len() == 8
            &&& line.shade is Selected <==> i == selection
            &&& line.text == " "@ + (if policy == active {
                "●"@
            } else {
                "○"@
            }) + " "@ + name
        }),
{
}

/// A row of a table shows the address, the name, the kind, the value or a dash,
/// the quality and the time of its point.
pub proof fn law_rows_show_their_point(point: PointRow, time: Seq<char>)
    ensures
        ({
            let cells = row_cells(point, time);
            &&& cells.len() == 6
            &&& cells[0] == decimal(point.ioa as nat)
            &&& cells[1] == point.name
            &&& cells[2] == point.kind_name
            &&& point.value matches Some(text) ==> cells[3] == text
            &&& point.value is None ==> cells[3] == "—"@
            &&& cells[4] == point.quality
            &&& cells[5] == time
        }),
{
}

/// A form shows each of its fields with what it holds, and the one that is typed
/// in alone stands out.
pub proof fn law_forms_show_their_fields(popup: PopupState, form: FormState, i: int)
    requires
        0 <= i < fields_of(popup.action).len(),
    ensures
        ({
            let lines = form_lines(popup, form);
            let field = fields_of(popup.action)[i];
            &&& lines.len() == fields_of(popup.action).len()
            &&& lines[i].len() == 2
            &&& lines[i][0].text == field.label_text()
            &&& lines[i][1].text == form.shown(field)
            &&& lines[i][1].shade is Selected <==> i == popup.field
        }),
{
}

/// The state of the interrogations and of the receipts is shown as waiting where
/// something is awaited, and as idle where nothing is.
pub proof fn law_what_is_awaited_is_shown(state: UiView, snapshot: SnapshotState)
    ensures
        ({
            let line = status_lines(state, snapshot)[0];
            &&& line[1].text == (if snapshot.general_pending {
                "等待 ACTTERM"@
            } else {
                "空闲"@
            })
            &&& line[4].text == (if snapshot.energy_pending {
                "等待 ACTTERM"@
            } else {
                "空闲"@
            })
            &&& line[7].text == decimal(snapshot.application_pending as nat)
            &&& line[1].shade is Warning <==> snapshot.general_pending
            &&& line[4].shade is Warning <==> snapshot.energy_pending
            &&& line[7].shade is Warning <==> snapshot.application_pending > 0
            &&& status_lines(state, snapshot)[1][1].text == (match snapshot.fault_policy {
                Some(policy) => policy.label_text(),
                None => "无（使用点位默认策略）"@,
            })
        }),
{
}

/// The details of an entry show its header fields and addresses first, where it
/// has them, and then its own lines in their order.
pub proof fn law_details_show_the_header_first(entry: LogView)
    ensures
        ({
            let lines = detail_lines(entry);
            let head: int = if entry.protocol is Some {
                4
            } else {
                1
            };
            &&& lines.len() == head + entry.details.len()
            &&& forall|i: int|
                0 <= i < entry.details.len() ==> #[trigger] entry.details[i] == lines[head + i]
            &&& entry.protocol matches Some(meta) ==> lines[1] == meta_text(meta) && lines[2]
                == addresses_text(meta.ioas)
        }),
{
}

} // verus!
