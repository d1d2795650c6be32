//! What the keys and the mouse do.

use crate::config::{dispatch_views, DispatchPointConfig, DispatchPointView, ToolConfig};
use crate::model::{
    log_views, AppSnapshot, CommandView, Direction, DispatchAction, FaultPolicy, LogEntry, LogView,
    RuntimeCommand, Side, SnapshotState, UploadKind,
};
use crate::number::{Real, Sample, SampleView};
use crate::text::{cat, cat_number, decimal, shortened, texts, with_char, without_last};
use crate::ui::area::{
    cells_after, cells_before, point_index_at, pointed_row, pointed_tab, rect_contains,
    screen_areas, scroll_point_offset, scrolled, tab_at, tab_widths, Area, ScreenAreas, TAB_COUNT,
};
use crate::ui::form::{
    action_fields, field_takes, fields_of, malformed_text, valid_form_character, CollectValuePopup,
    DispatchForm, DispatchPopup, FormField, FormState, PopupState, ValuePopupState,
};
use crate::ui::log::{
    earliest_back, earliest_offset, entry_back, entry_view, find_entry, log_window, shown_entries,
    window, LogFilter,
};
use vstd::prelude::*;

verus! {

// ---------------------------------------------------------------------------
// Input.
#[derive(Debug, Clone, Copy, PartialEq, Eq, Structural)]
pub enum Key {
    Esc,
    Enter,
    Up,
    Down,
    Left,
    Right,
    PageUp,
    PageDown,
    Home,
    End,
    Tab,
    BackTab,
    Backspace,
    Char(char),
    Other,
}

#[derive(Debug, Clone, Copy, PartialEq, Eq, Structural)]
pub struct KeyPress {
    pub key: Key,
    pub control: bool,
    pub shift: bool,
}

#[derive(Debug, Clone, Copy, PartialEq, Eq, Structural)]
pub enum MouseKind {
    LeftDown,
    ScrollUp,
    ScrollDown,
    Other,
}

#[derive(Debug, Clone, Copy, PartialEq, Eq, Structural)]
pub struct MouseInput {
    pub kind: MouseKind,
    pub column: u16,
    pub row: u16,
}

/// What floating point makes of the fields as they stand.
#[derive(Debug)]
pub struct Computed {
    /// The number in the value field of the form, where it is one.
    pub value: Option<Real>,
    /// The number in the popup of a point, where it is one.
    pub point: Option<Sample>,
    /// The renderings of the middles of the ranges of the dispatching points.
    pub middles: Vec<String>,
}

#[verifier::ext_equal]
pub struct ComputedView {
    pub value: Option<Real>,
    pub point: Option<SampleView>,
    pub middles: Seq<Seq<char>>,
}

impl View for Computed {
    type V = ComputedView;

    open spec fn view(&self) -> ComputedView {
        ComputedView {
            value: self.value,
            point: crate::config::sample_view(self.point),
            middles: texts(self.middles@),
        }
    }
}

/// The popup that is closed when a command was taken.
#[derive(Debug, Clone, Copy, PartialEq, Eq, Structural)]
pub enum Closes {
    Nothing,
    Form,
    Value,
}

/// A command that is to be given, and what is said where it is taken.
#[derive(Debug)]
pub struct Submission {
    pub command: RuntimeCommand,
    pub success: String,
    pub closes: Closes,
}

#[verifier::ext_equal]
pub struct SubmissionView {
    pub command: CommandView,
    pub success: Seq<char>,
    pub closes: Closes,
}

impl View for Submission {
    type V = SubmissionView;

    open spec fn view(&self) -> SubmissionView {
        SubmissionView { command: self.command@, success: self.success@, closes: self.closes }
    }
}

/// What input leads to, besides a change of the screen.
#[derive(Debug)]
pub enum Reaction {
    Nothing,
    Quit,
    Submit(Submission),
}

#[verifier::ext_equal]
pub enum ReactionView {
    Nothing,
    Quit,
    Submit(SubmissionView),
}

impl View for Reaction {
    type V = ReactionView;

    open spec fn view(&self) -> ReactionView {
        match self {
            Reaction::Nothing => ReactionView::Nothing,
            Reaction::Quit => ReactionView::Quit,
            Reaction::Submit(submission) => ReactionView::Submit(submission@),
        }
    }
}

pub open spec fn submitting(command: CommandView, success: Seq<char>, closes: Closes) -> ReactionView {
    ReactionView::Submit(SubmissionView { command, success, closes })
}

// ---------------------------------------------------------------------------
// The state of the screen.
#[derive(Debug)]
pub struct UiState {
    pub tab: usize,
    pub collect_selection: usize,
    pub dispatch_selection: usize,
    pub log_offset: usize,
    pub collect_value_offset: usize,
    pub dispatch_general_offset: usize,
    pub dispatch_energy_offset: usize,
    pub log_filter: LogFilter,
    pub detail: Option<LogEntry>,
    pub fault_popup: Option<usize>,
    pub dispatch_popup: Option<DispatchPopup>,
    pub collect_value_popup: Option<CollectValuePopup>,
    pub form: DispatchForm,
    pub last_action: String,
    pub protocol_status: String,
    pub queue_status: String,
}

#[verifier::ext_equal]
pub struct UiView {
    pub tab: usize,
    pub collect_selection: usize,
    pub dispatch_selection: usize,
    pub log_offset: usize,
    pub collect_value_offset: usize,
    pub dispatch_general_offset: usize,
    pub dispatch_energy_offset: usize,
    pub log_filter: LogFilter,
    pub detail: Option<LogView>,
    pub fault_popup: Option<usize>,
    pub dispatch_popup: Option<PopupState>,
    pub collect_value_popup: Option<ValuePopupState>,
    pub form: FormState,
    pub last_action: Seq<char>,
    pub protocol_status: Seq<char>,
    pub queue_status: Seq<char>,
}

pub open spec fn popup_view(popup: Option<DispatchPopup>) -> Option<PopupState> {
    match popup {
        Some(popup) => Some(popup@),
        None => None,
    }
}

pub open spec fn value_popup_view(popup: Option<CollectValuePopup>) -> Option<ValuePopupState> {
    match popup {
        Some(popup) => Some(popup@),
        None => None,
    }
}

impl View for UiState {
    type V = UiView;

    open spec fn view(&self) -> UiView {
        UiView {
            tab: self.tab,
            collect_selection: self.collect_selection,
            dispatch_selection: self.dispatch_selection,
            log_offset: self.log_offset,
            collect_value_offset: self.collect_value_offset,
            dispatch_general_offset: self.dispatch_general_offset,
            dispatch_energy_offset: self.dispatch_energy_offset,
            log_filter: self.log_filter,
            detail: entry_view(self.detail),
            fault_popup: self.fault_popup,
            dispatch_popup: popup_view(self.dispatch_popup),
            collect_value_popup: value_popup_view(self.collect_value_popup),
            form: self.form@,
            last_action: self.last_action@,
            protocol_status: self.protocol_status@,
            queue_status: self.queue_status@,
        }
    }
}

pub open spec fn protocol_text(config: ToolConfig) -> Seq<char> {
    let protocol = config.protocol;
    "T1="@ + decimal(protocol.t1_ms as nat) + "ms  T2="@ + decimal(protocol.t2_ms as nat)
        + "ms  T3="@ + decimal(protocol.t3_ms as nat) + "ms  K="@ + decimal(protocol.k as nat)
        + "  W="@ + decimal(protocol.w as nat)
}

pub open spec fn queue_text(config: ToolConfig) -> Seq<char> {
    "队列容量：命令="@ + decimal(config.ui.command_capacity as nat) + "  事件="@ + decimal(
        config.ui.event_capacity as nat,
    ) + "  日志环="@ + decimal(config.ui.log_capacity as nat)
}

impl UiView {
    /// The screen as it is first shown.
    pub open spec fn first(config: ToolConfig) -> UiView {
        UiView {
            tab: 0,
            collect_selection: 0,
            dispatch_selection: 0,
            log_offset: 0,
            collect_value_offset: 0,
            dispatch_general_offset: 0,
            dispatch_energy_offset: 0,
            log_filter: LogFilter::All,
            detail: None,
            fault_popup: None,
            dispatch_popup: None,
            collect_value_popup: None,
            form: FormState::first(config),
            last_action: "就绪；两侧任务已同时启动"@,
            protocol_status: protocol_text(config),
            queue_status: queue_text(config),
        }
    }

    /// The selections are among the choices.
    pub open spec fn sound(self) -> bool {
        &&& self.tab < TAB_COUNT
        &&& self.collect_selection < 11
        &&& self.dispatch_selection < 13
        &&& self.fault_popup matches Some(selection) ==> selection <= 7
        &&& self.dispatch_popup matches Some(popup) ==> popup.field < fields_of(popup.action).len()
    }

    /// A popup is open.
    pub open spec fn covered(self) -> bool {
        self.detail is Some || self.collect_value_popup is Some || self.dispatch_popup is Some
            || self.fault_popup is Some
    }

    pub open spec fn on_tab(self, tab: usize) -> UiView {
        UiView { tab, log_offset: 0, ..self }
    }

    /// The side whose log is on the screen.
    pub open spec fn log_side(self) -> Side {
        if self.tab == 1 {
            Side::Collect
        } else {
            Side::Dispatch
        }
    }

    pub open spec fn logs(self, snapshot: SnapshotState) -> Seq<LogView> {
        if self.tab == 1 {
            snapshot.collect_logs
        } else {
            snapshot.dispatch_logs
        }
    }

    /// The log on the screen is to be cleared.
    pub open spec fn clearing(self) -> (UiView, ReactionView) {
        (
            UiView { log_offset: 0, ..self },
            submitting(
                CommandView::ClearLogs(self.log_side()),
                self.log_side().label_text() + "日志已清屏"@,
                Closes::Nothing,
            ),
        )
    }

    pub open spec fn filtering(self) -> UiView {
        UiView { log_filter: self.log_filter.following(), log_offset: 0, ..self }
    }

    pub open spec fn earlier(self) -> UiView {
        UiView {
            log_offset: if self.log_offset < usize::MAX {
                (self.log_offset + 1) as usize
            } else {
                usize::MAX
            },
            ..self
        }
    }

    pub open spec fn later(self) -> UiView {
        UiView {
            log_offset: if self.log_offset > 0 {
                (self.log_offset - 1) as usize
            } else {
                0
            },
            ..self
        }
    }

    /// A report is asked for.
    pub open spec fn uploading(self, kind: UploadKind) -> (UiView, ReactionView) {
        (
            self,
            submitting(
                CommandView::CollectUpload(kind),
                "已提交："@ + kind.label_text() + "；结果请看采集日志"@,
                Closes::Nothing,
            ),
        )
    }

    pub open spec fn dispatch_text(action: DispatchAction) -> Seq<char> {
        "已提交："@ + action.label_text() + "；结果请看调度日志"@
    }

    /// A command is chosen: one without fields is given, for another the form
    /// opens.
    pub open spec fn activated(
        self,
        action: DispatchAction,
        points: Seq<DispatchPointView>,
        computed: ComputedView,
    ) -> (UiView, ReactionView) {
        let form = self.form.hinted(action, points, computed.middles);
        let hinted = UiView { form, ..self };
        if fields_of(action).len() > 0 {
            (
                UiView { dispatch_popup: Some(PopupState::opened(action)), ..hinted },
                ReactionView::Nothing,
            )
        } else {
            match form.requested(action, computed.value) {
                Ok(request) => (
                    hinted,
                    submitting(
                        CommandView::Dispatch(request),
                        UiView::dispatch_text(action),
                        Closes::Nothing,
                    ),
                ),
                Err(text) => (UiView { last_action: text, ..hinted }, ReactionView::Nothing),
            }
        }
    }

    /// The form is given as a command, where it can be.
    pub open spec fn form_submitted(self, computed: ComputedView) -> (UiView, ReactionView) {
        match self.dispatch_popup {
            None => (self, ReactionView::Nothing),
            Some(popup) => match self.form.requested(popup.action, computed.value) {
                Ok(request) => (
                    self,
                    submitting(
                        CommandView::Dispatch(request),
                        UiView::dispatch_text(popup.action),
                        Closes::Form,
                    ),
                ),
                Err(error) => (
                    UiView { dispatch_popup: Some(PopupState { error, ..popup }), ..self },
                    ReactionView::Nothing,
                ),
            },
        }
    }

    pub open spec fn form_closed(self) -> UiView {
        UiView { dispatch_popup: None, ..self }
    }

    /// The popup steps to a field.
    pub open spec fn form_stepped(self, backwards: bool) -> UiView {
        match self.dispatch_popup {
            None => self,
            Some(popup) => UiView {
                dispatch_popup: Some(
                    PopupState { error: Seq::empty(), ..popup.stepped(backwards) },
                ),
                ..self
            },
        }
    }

    pub open spec fn form_field(self) -> Option<FormField> {
        match self.dispatch_popup {
            Some(popup) => popup.current_field(),
            None => None,
        }
    }

    pub open spec fn form_erased(self) -> UiView {
        match self.form_field() {
            Some(field) => match self.form.text(field) {
                Some(text) => UiView { form: self.form.with_text(field, shortened(text)), ..self },
                None => self,
            },
            None => self,
        }
    }

    pub open spec fn form_typed(self, c: char) -> UiView {
        match (self.dispatch_popup, self.form_field()) {
            (Some(popup), Some(field)) => match self.form.text(field) {
                Some(text) => if field_takes(field, c) {
                    UiView {
                        form: self.form.with_text(field, text.push(c)),
                        dispatch_popup: Some(PopupState { error: Seq::empty(), ..popup }),
                        ..self
                    }
                } else {
                    self
                },
                None => self,
            },
            _ => self,
        }
    }

    pub open spec fn form_toggled(self, field: FormField) -> UiView {
        UiView { form: self.form.toggled(field), ..self }
    }

    /// A key while the form is open.
    pub open spec fn form_key(self, press: KeyPress, computed: ComputedView) -> (UiView, ReactionView) {
        match press.key {
            Key::Esc => (self.form_closed(), ReactionView::Nothing),
            Key::Tab => (self.form_stepped(press.shift), ReactionView::Nothing),
            Key::BackTab => (self.form_stepped(true), ReactionView::Nothing),
            Key::Backspace => (self.form_erased(), ReactionView::Nothing),
            Key::Enter => self.form_submitted(computed),
            Key::Char(c) => (
                if c == 's' {
                    self.form_toggled(FormField::Phase)
                } else if c == 't' {
                    self.form_toggled(FormField::Test)
                } else {
                    self.form_typed(c)
                },
                ReactionView::Nothing,
            ),
            _ => (self, ReactionView::Nothing),
        }
    }

    pub open spec fn value_closed(self) -> UiView {
        UiView { collect_value_popup: None, ..self }
    }

    pub open spec fn value_edited(self, value: Seq<char>) -> UiView {
        match self.collect_value_popup {
            Some(popup) => UiView {
                collect_value_popup: Some(
                    ValuePopupState { value, error: Seq::empty(), ..popup },
                ),
                ..self
            },
            None => self,
        }
    }

    pub open spec fn value_refused(self, error: Seq<char>) -> UiView {
        match self.collect_value_popup {
            Some(popup) => UiView {
                collect_value_popup: Some(ValuePopupState { error, ..popup }),
                ..self
            },
            None => self,
        }
    }

    /// The value is given as a command, where it is a finite number.
    pub open spec fn value_submitted(self, computed: ComputedView) -> (UiView, ReactionView) {
        match self.collect_value_popup {
            None => (self, ReactionView::Nothing),
            Some(popup) => match computed.point {
                None => (
                    self.value_refused(malformed_text("采集点值"@, popup.value)),
                    ReactionView::Nothing,
                ),
                Some(sample) => if !sample.value.finite() {
                    (
                        self.value_refused("采集点值必须是有限数字"@),
                        ReactionView::Nothing,
                    )
                } else {
                    (
                        self,
                        submitting(
                            CommandView::SetCollectValue {
                                ioa: popup.ioa,
                                type_id: popup.type_id,
                                value: sample,
                            },
                            "已提交采集点修改："@ + popup.type_id + "/IOA="@ + decimal(
                                popup.ioa as nat,
                            ) + "，值="@ + sample.plain,
                            Closes::Value,
                        ),
                    )
                },
            },
        }
    }

    /// A key while the popup of a point is open.
    pub open spec fn value_key(
        self,
        press: KeyPress,
        computed: ComputedView,
    ) -> (UiView, ReactionView) {
        let text = self.collect_value_popup->0.value;
        match press.key {
            Key::Esc => (self.value_closed(), ReactionView::Nothing),
            Key::Backspace => (self.value_edited(shortened(text)), ReactionView::Nothing),
            Key::Enter => self.value_submitted(computed),
            Key::Char(c) => (
                if ('0' <= c && c <= '9') || c == '-' || c == '+' || c == '.' {
                    self.value_edited(text.push(c))
                } else {
                    self
                },
                ReactionView::Nothing,
            ),
            _ => (self, ReactionView::Nothing),
        }
    }

    /// A response is chosen for the next control, or none.
    pub open spec fn policy_chosen(self, selection: usize) -> (UiView, ReactionView) {
        (
            UiView { fault_popup: None, ..self },
            submitting(
                CommandView::SetFaultPolicy(
                    if selection == 0 {
                        None
                    } else {
                        Some(FaultPolicy::ALL@[selection - 1])
                    },
                ),
                "响应策略已提交"@,
                Closes::Nothing,
            ),
        )
    }

    /// A key while the responses are open.
    pub open spec fn fault_key(self, press: KeyPress) -> (UiView, ReactionView) {
        let selection = self.fault_popup->0;
        match press.key {
            Key::Esc => (UiView { fault_popup: None, ..self }, ReactionView::Nothing),
            Key::Up => (
                UiView {
                    fault_popup: Some(
                        if selection > 0 {
                            (selection - 1) as usize
                        } else {
                            0
                        },
                    ),
                    ..self
                },
                ReactionView::Nothing,
            ),
            Key::Down => (
                UiView {
                    fault_popup: Some(
                        if selection < 7 {
                            (selection + 1) as usize
                        } else {
                            7
                        },
                    ),
                    ..self
                },
                ReactionView::Nothing,
            ),
            Key::Enter => self.policy_chosen(selection),
            _ => (self, ReactionView::Nothing),
        }
    }

    /// A key on a page with a log.
    pub open spec fn log_key(self, press: KeyPress, snapshot: SnapshotState) -> (UiView, ReactionView) {
        match press.key {
            Key::Up | Key::PageUp => (self.earlier(), ReactionView::Nothing),
            Key::Down | Key::PageDown => (self.later(), ReactionView::Nothing),
            Key::Home => (
                UiView {
                    log_offset: earliest_offset(self.logs(snapshot), self.log_filter) as usize,
                    ..self
                },
                ReactionView::Nothing,
            ),
            Key::End => (UiView { log_offset: 0, ..self }, ReactionView::Nothing),
            Key::Enter => (
                UiView {
                    detail: entry_back(
                        self.logs(snapshot),
                        self.log_filter,
                        self.log_offset as nat,
                    ),
                    ..self
                },
                ReactionView::Nothing,
            ),
            Key::Char(c) => if c == 'p' {
                (self.filtering(), ReactionView::Nothing)
            } else if c == 'c' {
                self.clearing()
            } else {
                (self, ReactionView::Nothing)
            },
            _ => (self, ReactionView::Nothing),
        }
    }

    /// A key on the page with the reports.
    pub open spec fn collect_key(self, press: KeyPress) -> (UiView, ReactionView) {
        match press.key {
            Key::Up => (
                UiView {
                    collect_selection: if self.collect_selection > 0 {
                        (self.collect_selection - 1) as usize
                    } else {
                        0
                    },
                    ..self
                },
                ReactionView::Nothing,
            ),
            Key::Down => (
                UiView {
                    collect_selection: if self.collect_selection < 10 {
                        (self.collect_selection + 1) as usize
                    } else {
                        10
                    },
                    ..self
                },
                ReactionView::Nothing,
            ),
            Key::Enter => self.uploading(UploadKind::ALL@[self.collect_selection as int]),
            _ => (self, ReactionView::Nothing),
        }
    }

    /// A key on the page with the commands.
    pub open spec fn dispatch_key(
        self,
        press: KeyPress,
        points: Seq<DispatchPointView>,
        computed: ComputedView,
    ) -> (UiView, ReactionView) {
        if press.key is Up || press.key == Key::Char('k') {
            (
                UiView {
                    dispatch_selection: if self.dispatch_selection > 0 {
                        (self.dispatch_selection - 1) as usize
                    } else {
                        0
                    },
                    ..self
                },
                ReactionView::Nothing,
            )
        } else if press.key is Down || press.key == Key::Char('j') {
            (
                UiView {
                    dispatch_selection: if self.dispatch_selection < 12 {
                        (self.dispatch_selection + 1) as usize
                    } else {
                        12
                    },
                    ..self
                },
                ReactionView::Nothing,
            )
        } else if press.key is Enter {
            self.activated(
                DispatchAction::ALL@[self.dispatch_selection as int],
                points,
                computed,
            )
        } else {
            (self, ReactionView::Nothing)
        }
    }

    /// A key on the page that is on the screen.
    pub open spec fn page_key(
        self,
        press: KeyPress,
        snapshot: SnapshotState,
        computed: ComputedView,
    ) -> (UiView, ReactionView) {
        if self.tab == 1 || self.tab == 2 {
            self.log_key(press, snapshot)
        } else if self.tab == 3 {
            self.collect_key(press)
        } else if self.tab == 4 {
            self.dispatch_key(press, snapshot.dispatch_points, computed)
        } else {
            (self, ReactionView::Nothing)
        }
    }

    /// A key was pressed.
    pub open spec fn after_key(
        self,
        press: KeyPress,
        snapshot: SnapshotState,
        computed: ComputedView,
    ) -> (UiView, ReactionView) {
        if press.control && press.key == Key::Char('c') {
            (self, ReactionView::Quit)
        } else if self.detail is Some {
            (
                if press.key is Esc || press.key is Enter || press.key == Key::Char('q') {
                    UiView { detail: None, ..self }
                } else {
                    self
                },
                ReactionView::Nothing,
            )
        } else if self.collect_value_popup is Some {
            self.value_key(press, computed)
        } else if self.dispatch_popup is Some {
            self.form_key(press, computed)
        } else if self.fault_popup is Some {
            self.fault_key(press)
        } else {
            match press.key {
                Key::Char(c) => if c == 'q' {
                    (self, ReactionView::Quit)
                } else if c == 'r' {
                    (
                        self,
                        submitting(
                            CommandView::ReloadConfig,
                            "已请求重新加载配置"@,
                            Closes::Nothing,
                        ),
                    )
                } else if c == 'f' {
                    (UiView { fault_popup: Some(0), ..self }, ReactionView::Nothing)
                } else if '1' <= c && c <= '7' {
                    (self.on_tab((c as u32 - '1' as u32) as usize), ReactionView::Nothing)
                } else {
                    self.page_key(press, snapshot, computed)
                },
                Key::Left => (
                    self.on_tab(
                        if self.tab > 0 {
                            (self.tab - 1) as usize
                        } else {
                            (TAB_COUNT - 1) as usize
                        },
                    ),
                    ReactionView::Nothing,
                ),
                Key::Right => (
                    self.on_tab(
                        if self.tab < TAB_COUNT - 1 {
                            (self.tab + 1) as usize
                        } else {
                            0
                        },
                    ),
                    ReactionView::Nothing,
                ),
                _ => self.page_key(press, snapshot, computed),
            }
        }
    }

    /// The command was taken, or refused.
    pub open spec fn concluded(
        self,
        success: Seq<char>,
        closes: Closes,
        refusal: Option<Seq<char>>,
    ) -> UiView {
        match refusal {
            Some(text) => UiView { last_action: "命令队列拒绝请求: "@ + text, ..self },
            None => {
                let told = UiView { last_action: success, ..self };
                match closes {
                    Closes::Nothing => told,
                    Closes::Form => told.form_closed(),
                    Closes::Value => told.value_closed(),
                }
            },
        }
    }
}

impl UiState {
    pub fn new(config: &ToolConfig) -> (result: Self)
        ensures
            result@ == UiView::first(*config),
            result@.sound(),
    {
        let text = cat_number("T1=".to_owned(), config.protocol.t1_ms);
        let text = cat_number(cat(text, "ms  T2="), config.protocol.t2_ms);
        let text = cat_number(cat(text, "ms  T3="), config.protocol.t3_ms);
        let text = cat_number(cat(text, "ms  K="), config.protocol.k as u64);
        let protocol_status = cat_number(cat(text, "  W="), config.protocol.w as u64);
        let text = cat_number("队列容量：命令=".to_owned(), config.ui.command_capacity as u64);
        let text = cat_number(cat(text, "  事件="), config.ui.event_capacity as u64);
        let queue_status = cat_number(cat(text, "  日志环="), config.ui.log_capacity as u64);
        UiState {
            tab: 0,
            collect_selection: 0,
            dispatch_selection: 0,
            log_offset: 0,
            collect_value_offset: 0,
            dispatch_general_offset: 0,
            dispatch_energy_offset: 0,
            log_filter: LogFilter::All,
            detail: None,
            fault_popup: None,
            dispatch_popup: None,
            collect_value_popup: None,
            form: DispatchForm::new(config),
            last_action: "就绪；两侧任务已同时启动".to_owned(),
            protocol_status,
            queue_status,
        }
    }

    pub fn selected_action(&self) -> (result: DispatchAction)
        requires
            self.dispatch_selection < 13,
        ensures
            result == DispatchAction::ALL@[self.dispatch_selection as int],
    {
        DispatchAction::ALL[self.dispatch_selection]
    }

    fn submit(command: RuntimeCommand, success: String, closes: Closes) -> (result: Reaction)
        ensures
            result@ == submitting(command@, success@, closes),
    {
        Reaction::Submit(Submission { command, success, closes })
    }

    /// Says what became of a command that was to be given.
    pub fn conclude(&mut self, success: String, closes: Closes, refusal: Option<String>)
        ensures
            final(self)@ == old(self)@.concluded(
                success@,
                closes,
                crate::model::text_view(refusal),
            ),
    {
        match refusal {
            Some(text) => {
                self.last_action = cat("命令队列拒绝请求: ".to_owned(), text.as_str());
            },
            None => {
                self.last_action = success;
                match closes {
                    Closes::Nothing => {},
                    Closes::Form => {
                        self.dispatch_popup = None;
                    },
                    Closes::Value => {
                        self.collect_value_popup = None;
                    },
                }
            },
        }
    }

    fn select_tab(&mut self, tab: usize)
        ensures
            final(self)@ == old(self)@.on_tab(tab),
    {
        self.tab = tab;
        self.log_offset = 0;
    }

    fn clear_logs(&mut self) -> (result: Reaction)
        ensures
            (final(self)@, result@) == old(self)@.clearing(),
    {
        let side = if self.tab == 1 {
            Side::Collect
        } else {
            Side::Dispatch
        };
        self.log_offset = 0;
        UiState::submit(
            RuntimeCommand::ClearLogs(side),
            cat(side.label().to_owned(), "日志已清屏"),
            Closes::Nothing,
        )
    }

    fn next_filter(&mut self)
        ensures
            final(self)@ == old(self)@.filtering(),
    {
        self.log_filter = self.log_filter.next();
        self.log_offset = 0;
    }

    fn scroll_log(&mut self, back: bool)
        ensures
            final(self)@ == (if back {
                old(self)@.earlier()
            } else {
                old(self)@.later()
            }),
    {
        if back {
            if self.log_offset < usize::MAX {
                self.log_offset = self.log_offset + 1;
            }
        } else if self.log_offset > 0 {
            self.log_offset = self.log_offset - 1;
        }
    }

    fn upload(&mut self, kind: UploadKind) -> (result: Reaction)
        ensures
            (final(self)@, result@) == old(self)@.uploading(kind),
    {
        let text = cat("已提交：".to_owned(), kind.label());
        UiState::submit(
            RuntimeCommand::CollectUpload(kind),
            cat(text, "；结果请看采集日志"),
            Closes::Nothing,
        )
    }

    pub fn activate_dispatch_action(
        &mut self,
        action: DispatchAction,
        points: &Vec<DispatchPointConfig>,
        computed: &Computed,
    ) -> (result: Reaction)
        ensures
            (final(self)@, result@) == old(self)@.activated(
                action,
                dispatch_views(points@),
                computed@,
            ),
    {
        self.form.apply_hint(action, points, &computed.middles);
        let fields = action_fields(action);
        if fields.len() > 0 {
            self.dispatch_popup = Some(DispatchPopup::new(action));
            return Reaction::Nothing;
        }
        match self.form.request(action, computed.value) {
            Ok(request) => {
                let text = cat("已提交：".to_owned(), action.label());
                UiState::submit(
                    RuntimeCommand::Dispatch(request),
                    cat(text, "；结果请看调度日志"),
                    Closes::Nothing,
                )
            },
            Err(text) => {
                self.last_action = text;
                Reaction::Nothing
            },
        }
    }

    pub fn submit_dispatch_popup(&mut self, computed: &Computed) -> (result: Reaction)
        ensures
            (final(self)@, result@) == old(self)@.form_submitted(computed@),
    {
        let action = match &self.dispatch_popup {
            Some(popup) => popup.action,
            None => {
                return Reaction::Nothing;
            },
        };
        match self.form.request(action, computed.value) {
            Ok(request) => {
                let text = cat("已提交：".to_owned(), action.label());
                UiState::submit(
                    RuntimeCommand::Dispatch(request),
                    cat(text, "；结果请看调度日志"),
                    Closes::Form,
                )
            },
            Err(error) => {
                if let Some(popup) = self.dispatch_popup.take() {
                    self.dispatch_popup = Some(
                        DispatchPopup { action: popup.action, field: popup.field, error },
                    );
                }
                Reaction::Nothing
            },
        }
    }

    fn step_form(&mut self, backwards: bool)
        requires
            old(self)@.sound(),
        ensures
            final(self)@ == old(self)@.form_stepped(backwards),
    {
        if let Some(mut popup) = self.dispatch_popup.take() {
            popup.next_field(backwards);
            popup.error = String::new();
            self.dispatch_popup = Some(popup);
        }
    }

    fn current_form_field(&self) -> (result: Option<FormField>)
        ensures
            result == self@.form_field(),
    {
        match &self.dispatch_popup {
            Some(popup) => popup.current_field(),
            None => None,
        }
    }

    fn erase_in_form(&mut self)
        ensures
            final(self)@ == old(self)@.form_erased(),
    {
        if let Some(field) = self.current_form_field() {
            let shorter = match self.form.text(field) {
                Some(text) => without_last(text.as_str()),
                None => {
                    return;
                },
            };
            self.form.set_text(field, shorter);
        }
    }

    fn type_in_form(&mut self, c: char)
        ensures
            final(self)@ == old(self)@.form_typed(c),
    {
        if let Some(field) = self.current_form_field() {
            if !valid_form_character(c, field) {
                return;
            }
            let longer = match self.form.text(field) {
                Some(text) => with_char(text.as_str(), c),
                None => {
                    return;
                },
            };
            self.form.set_text(field, longer);
            if let Some(mut popup) = self.dispatch_popup.take() {
                popup.error = String::new();
                self.dispatch_popup = Some(popup);
            }
        }
    }

    pub fn handle_dispatch_popup_key(&mut self, press: KeyPress, computed: &Computed) -> (result:
        Reaction)
        requires
            old(self)@.sound(),
        ensures
            (final(self)@, result@) == old(self)@.form_key(press, computed@),
    {
        match press.key {
            Key::Esc => {
                self.dispatch_popup = None;
            },
            Key::Tab => {
                self.step_form(press.shift);
            },
            Key::BackTab => {
                self.step_form(true);
            },
            Key::Backspace => {
                self.erase_in_form();
            },
            Key::Enter => {
                return self.submit_dispatch_popup(computed);
            },
            Key::Char(c) => {
                if c == 's' {
                    self.form.toggle(FormField::Phase);
                } else if c == 't' {
                    self.form.toggle(FormField::Test);
                } else {
                    self.type_in_form(c);
                }
            },
            _ => {},
        }
        Reaction::Nothing
    }

    fn refuse_value(&mut self, error: String)
        ensures
            final(self)@ == old(self)@.value_refused(error@),
    {
        if let Some(mut popup) = self.collect_value_popup.take() {
            popup.error = error;
            self.collect_value_popup = Some(popup);
        }
    }

    fn edit_value(&mut self, value: String)
        ensures
            final(self)@ == old(self)@.value_edited(value@),
    {
        if let Some(mut popup) = self.collect_value_popup.take() {
            popup.value = value;
            popup.error = String::new();
            self.collect_value_popup = Some(popup);
        }
    }

    pub fn submit_collect_value_popup(&mut self, computed: &Computed) -> (result: Reaction)
        ensures
            (final(self)@, result@) == old(self)@.value_submitted(computed@),
    {
        let popup = match &self.collect_value_popup {
            Some(popup) => popup,
            None => {
                return Reaction::Nothing;
            },
        };
        let sample = match &computed.point {
            Some(sample) => sample,
            None => {
                let shown = crate::text::debug_text(popup.value.as_str());
                let error = cat(
                    cat("采集点值".to_owned(), "格式不正确: "),
                    shown.as_str(),
                );
                self.refuse_value(error);
                return Reaction::Nothing;
            },
        };
        if !sample.value.is_finite() {
            self.refuse_value("采集点值必须是有限数字".to_owned());
            return Reaction::Nothing;
        }
        let text = cat("已提交采集点修改：".to_owned(), popup.type_id.as_str());
        let text = cat_number(cat(text, "/IOA="), popup.ioa as u64);
        let success = cat(cat(text, "，值="), sample.plain.as_str());
        UiState::submit(
            RuntimeCommand::SetCollectValue {
                ioa: popup.ioa,
                type_id: popup.type_id.clone(),
                value: sample.copy(),
            },
            success,
            Closes::Value,
        )
    }

    pub fn handle_collect_value_popup_key(&mut self, press: KeyPress, computed: &Computed) -> (
        result: Reaction)
        requires
            old(self)@.collect_value_popup is Some,
        ensures
            (final(self)@, result@) == old(self)@.value_key(press, computed@),
    {
        match press.key {
            Key::Esc => {
                self.collect_value_popup = None;
            },
            Key::Backspace => {
                if let Some(popup) = &self.collect_value_popup {
                    let shorter = without_last(popup.value.as_str());
                    self.edit_value(shorter);
                }
            },
            Key::Enter => {
                return self.submit_collect_value_popup(computed);
            },
            Key::Char(c) => {
                if ('0' <= c && c <= '9') || c == '-' || c == '+' || c == '.' {
                    if let Some(popup) = &self.collect_value_popup {
                        let longer = with_char(popup.value.as_str(), c);
                        self.edit_value(longer);
                    }
                }
            },
            _ => {},
        }
        Reaction::Nothing
    }

    fn choose_policy(&mut self, selection: usize) -> (result: Reaction)
        requires
            selection <= 7,
        ensures
            (final(self)@, result@) == old(self)@.policy_chosen(selection),
    {
        let policy = if selection == 0 {
            None
        } else {
            Some(FaultPolicy::ALL[selection - 1])
        };
        self.fault_popup = None;
        UiState::submit(
            RuntimeCommand::SetFaultPolicy(policy),
            "响应策略已提交".to_owned(),
            Closes::Nothing,
        )
    }

    fn handle_fault_key(&mut self, selection: usize, press: KeyPress) -> (result: Reaction)
        requires
            old(self)@.fault_popup == Some(selection),
            selection <= 7,
        ensures
            (final(self)@, result@) == old(self)@.fault_key(press),
    {
        match press.key {
            Key::Esc => {
                self.fault_popup = None;
            },
            Key::Up => {
                self.fault_popup = Some(
                    if selection > 0 {
                        selection - 1
                    } else {
                        0
                    },
                );
            },
            Key::Down => {
                self.fault_popup = Some(
                    if selection < 7 {
                        selection + 1
                    } else {
                        7
                    },
                );
            },
            Key::Enter => {
                return self.choose_policy(selection);
            },
            _ => {},
        }
        Reaction::Nothing
    }

    pub fn handle_log_key(&mut self, press: KeyPress, snapshot: &AppSnapshot) -> (result: Reaction)
        ensures
            (final(self)@, result@) == old(self)@.log_key(press, snapshot@),
    {
        match press.key {
            Key::Up | Key::PageUp => {
                self.scroll_log(true);
            },
            Key::Down | Key::PageDown => {
                self.scroll_log(false);
            },
            Key::Home => {
                self.log_offset = if self.tab == 1 {
                    earliest_back(&snapshot.collect_logs, self.log_filter)
                } else {
                    earliest_back(&snapshot.dispatch_logs, self.log_filter)
                };
            },
            Key::End => {
                self.log_offset = 0;
            },
            Key::Enter => {
                self.detail = if self.tab == 1 {
                    find_entry(&snapshot.collect_logs, self.log_filter, self.log_offset)
                } else {
                    find_entry(&snapshot.dispatch_logs, self.log_filter, self.log_offset)
                };
            },
            Key::Char(c) => {
                if c == 'p' {
                    self.next_filter();
                } else if c == 'c' {
                    return self.clear_logs();
                }
            },
            _ => {},
        }
        Reaction::Nothing
    }

    pub fn handle_collect_key(&mut self, press: KeyPress) -> (result: Reaction)
        requires
            old(self)@.sound(),
        ensures
            (final(self)@, result@) == old(self)@.collect_key(press),
    {
        match press.key {
            Key::Up => {
                if self.collect_selection > 0 {
                    self.collect_selection = self.collect_selection - 1;
                }
            },
            Key::Down => {
                if self.collect_selection < 10 {
                    self.collect_selection = self.collect_selection + 1;
                }
            },
            Key::Enter => {
                let kind = UploadKind::ALL[self.collect_selection];
                return self.upload(kind);
            },
            _ => {},
        }
        Reaction::Nothing
    }

    pub fn handle_dispatch_key(
        &mut self,
        press: KeyPress,
        points: &Vec<DispatchPointConfig>,
        computed: &Computed,
    ) -> (result: Reaction)
        requires
            old(self)@.sound(),
        ensures
            (final(self)@, result@) == old(self)@.dispatch_key(
                press,
                dispatch_views(points@),
                computed@,
            ),
    {
        match press.key {
            Key::Up | Key::Char('k') => {
                if self.dispatch_selection > 0 {
                    self.dispatch_selection = self.dispatch_selection - 1;
                }
                Reaction::Nothing
            },
            Key::Down | Key::Char('j') => {
                if self.dispatch_selection < 12 {
                    self.dispatch_selection = self.dispatch_selection + 1;
                }
                Reaction::Nothing
            },
            Key::Enter => {
                let action = self.selected_action();
                self.activate_dispatch_action(action, points, computed)
            },
            _ => Reaction::Nothing,
        }
    }

    fn handle_page_key(&mut self, press: KeyPress, snapshot: &AppSnapshot, computed: &Computed) -> (
        result: Reaction)
        requires
            old(self)@.sound(),
        ensures
            (final(self)@, result@) == old(self)@.page_key(press, snapshot@, computed@),
    {
        if self.tab == 1 || self.tab == 2 {
            self.handle_log_key(press, snapshot)
        } else if self.tab == 3 {
            self.handle_collect_key(press)
        } else if self.tab == 4 {
            self.handle_dispatch_key(press, &snapshot.dispatch_points, computed)
        } else {
            Reaction::Nothing
        }
    }

    /// Takes a key.
    pub fn handle_key(&mut self, press: KeyPress, snapshot: &AppSnapshot, computed: &Computed) -> (
        result: Reaction)
        requires
            old(self)@.sound(),
        ensures
            (final(self)@, result@) == old(self)@.after_key(press, snapshot@, computed@),
            final(self)@.sound(),
    {
        if press.control && press.key == Key::Char('c') {
            return Reaction::Quit;
        }
        if self.detail.is_some() {
            if matches!(press.key, Key::Esc | Key::Enter | Key::Char('q')) {
                self.detail = None;
            }
            return Reaction::Nothing;
        }
        if self.collect_value_popup.is_some() {
            return self.handle_collect_value_popup_key(press, computed);
        }
        if self.dispatch_popup.is_some() {
            return self.handle_dispatch_popup_key(press, computed);
        }
        if let Some(selection) = self.fault_popup {
            return self.handle_fault_key(selection, press);
        }
        match press.key {
            Key::Char(c) => {
                if c == 'q' {
                    return Reaction::Quit;
                }
                if c == 'r' {
                    return UiState::submit(
                        RuntimeCommand::ReloadConfig,
                        "已请求重新加载配置".to_owned(),
                        Closes::Nothing,
                    );
                }
                if c == 'f' {
                    self.fault_popup = Some(0);
                    return Reaction::Nothing;
                }
                if '1' <= c && c <= '7' {
                    self.select_tab((c as u32 - '1' as u32) as usize);
                    return Reaction::Nothing;
                }
                self.handle_page_key(press, snapshot, computed)
            },
            Key::Left => {
                let tab: usize = if self.tab > 0 {
                    self.tab - 1
                } else {
                    TAB_COUNT - 1
                };
                self.select_tab(tab);
                Reaction::Nothing
            },
            Key::Right => {
                let tab: usize = if self.tab < TAB_COUNT - 1 {
                    self.tab + 1
                } else {
                    0
                };
                self.select_tab(tab);
                Reaction::Nothing
            },
            _ => self.handle_page_key(press, snapshot, computed),
        }
    }
}

// ---------------------------------------------------------------------------
// The mouse.
/// The line of a list that stands in a row of an area, below its border.
pub open spec fn list_line(area: Area, column: u16, row: u16) -> Option<int> {
    if area.contains(column, row) && row >= cells_after(area.y, 1) {
        Some(row - cells_after(area.y, 1))
    } else {
        None
    }
}

fn line_at(area: Area, column: u16, row: u16) -> (result: Option<usize>)
    ensures
        match result {
            Some(index) => list_line(area, column, row) == Some(index as int),
            None => list_line(area, column, row) is None,
        },
{
    let first: u16 = area.y.saturating_add(1);
    if rect_contains(area, column, row) && row >= first {
        Some((row - first) as usize)
    } else {
        None
    }
}

/// The button in the left half of an area.
pub open spec fn left_half(area: Area, column: u16) -> bool {
    column < cells_after(area.x, area.width / 2)
}

fn is_left_half(area: Area, column: u16) -> (result: bool)
    ensures
        result == left_half(area, column),
{
    column < area.x.saturating_add(area.width / 2)
}

/// The buttons above the logs.
pub open spec fn clear_button(controls: Area, row: u16) -> Area {
    Area { x: cells_after(controls.x, 1), y: row, width: 10, height: 1 }
}

pub open spec fn filter_button(controls: Area, row: u16) -> Area {
    Area { x: cells_after(controls.x, 13), y: row, width: 20, height: 1 }
}

impl UiView {
    /// The wheel over a table of values.
    pub open spec fn value_scrolled(
        self,
        column: u16,
        row: u16,
        snapshot: SnapshotState,
        areas: ScreenAreas,
        forward: bool,
    ) -> UiView {
        if self.covered() || !areas.screen.sufficient() {
            self
        } else if self.tab == 5 && areas.content.contains(column, row) {
            UiView {
                collect_value_offset: scrolled(
                    self.collect_value_offset as nat,
                    snapshot.collect_values.len(),
                    areas.content,
                    forward,
                ) as usize,
                ..self
            }
        } else if self.tab == 6 && areas.general.contains(column, row) {
            UiView {
                dispatch_general_offset: scrolled(
                    self.dispatch_general_offset as nat,
                    snapshot.dispatch_current_general.len(),
                    areas.general,
                    forward,
                ) as usize,
                ..self
            }
        } else if self.tab == 6 && areas.energy.contains(column, row) {
            UiView {
                dispatch_energy_offset: scrolled(
                    self.dispatch_energy_offset as nat,
                    snapshot.dispatch_current_energy.len(),
                    areas.energy,
                    forward,
                ) as usize,
                ..self
            }
        } else {
            self
        }
    }

    /// A click while the popup of a point is open.
    pub open spec fn value_click(
        self,
        column: u16,
        row: u16,
        areas: ScreenAreas,
        computed: ComputedView,
    ) -> (UiView, ReactionView) {
        if !areas.value.contains(column, row) {
            (self.value_closed(), ReactionView::Nothing)
        } else if areas.value_buttons.contains(column, row) {
            if left_half(areas.value_buttons, column) {
                self.value_submitted(computed)
            } else {
                (self.value_closed(), ReactionView::Nothing)
            }
        } else {
            (self, ReactionView::Nothing)
        }
    }

    /// A click on a field of the form, or on the line below its last field.
    pub open spec fn field_clicked(self, index: int) -> UiView {
        match self.dispatch_popup {
            Some(popup) => if index < fields_of(popup.action).len() {
                let chosen = UiView {
                    dispatch_popup: Some(
                        PopupState { field: index as usize, error: Seq::empty(), ..popup },
                    ),
                    ..self
                };
                let field = fields_of(popup.action)[index];
                if field is Phase || field is Test {
                    chosen.form_toggled(field)
                } else {
                    chosen
                }
            } else {
                self
            },
            None => self,
        }
    }

    /// A click while the form is open.
    pub open spec fn form_click(
        self,
        column: u16,
        row: u16,
        areas: ScreenAreas,
        computed: ComputedView,
    ) -> (UiView, ReactionView) {
        let first = cells_after(areas.form_fields.y, 2);
        if !areas.form.contains(column, row) {
            (self.form_closed(), ReactionView::Nothing)
        } else if areas.form_fields.contains(column, row) && row >= first {
            (self.field_clicked(row - first), ReactionView::Nothing)
        } else if areas.form_buttons.contains(column, row) {
            if left_half(areas.form_buttons, column) {
                self.form_submitted(computed)
            } else {
                (self.form_closed(), ReactionView::Nothing)
            }
        } else {
            (self, ReactionView::Nothing)
        }
    }

    /// A click while the responses are open.
    pub open spec fn fault_click(self, column: u16, row: u16, areas: ScreenAreas) -> (
        UiView,
        ReactionView,
    ) {
        if !areas.fault.contains(column, row) {
            (UiView { fault_popup: None, ..self }, ReactionView::Nothing)
        } else {
            match list_line(areas.fault, column, row) {
                Some(index) => if index <= 7 {
                    self.policy_chosen(index as usize)
                } else {
                    (self, ReactionView::Nothing)
                },
                None => (self, ReactionView::Nothing),
            }
        }
    }

    /// The entry in a row of a pane.
    pub open spec fn pane_entry(
        self,
        snapshot: SnapshotState,
        direction: Direction,
        pane: Area,
        row: u16,
    ) -> UiView {
        let seen = window(
            self.logs(snapshot),
            direction,
            self.log_filter,
            self.log_offset as nat,
            pane,
        );
        let index = row - cells_after(pane.y, 1);
        if row <= pane.y || row >= cells_before(pane.bottom(), 1) {
            self
        } else if 0 <= index < seen.len() {
            UiView { detail: Some(seen[index]), ..self }
        } else {
            UiView { detail: None, ..self }
        }
    }

    /// A click on a page with a log.
    pub open spec fn log_click(
        self,
        column: u16,
        row: u16,
        snapshot: SnapshotState,
        areas: ScreenAreas,
    ) -> (UiView, ReactionView) {
        if row == cells_after(areas.controls.y, 1) {
            if clear_button(areas.controls, row).contains(column, row) {
                self.clearing()
            } else if filter_button(areas.controls, row).contains(column, row) {
                (self.filtering(), ReactionView::Nothing)
            } else {
                (self, ReactionView::Nothing)
            }
        } else if areas.incoming.contains(column, row) {
            (
                self.pane_entry(snapshot, Direction::Incoming, areas.incoming, row),
                ReactionView::Nothing,
            )
        } else if areas.outgoing.contains(column, row) {
            (
                self.pane_entry(snapshot, Direction::Outgoing, areas.outgoing, row),
                ReactionView::Nothing,
            )
        } else {
            (self, ReactionView::Nothing)
        }
    }

    /// A click on the page that is on the screen.
    pub open spec fn page_click(
        self,
        column: u16,
        row: u16,
        snapshot: SnapshotState,
        areas: ScreenAreas,
        computed: ComputedView,
    ) -> (UiView, ReactionView) {
        let line = list_line(areas.content, column, row);
        if self.tab == 1 || self.tab == 2 {
            self.log_click(column, row, snapshot, areas)
        } else if self.tab == 3 {
            match line {
                Some(index) => if index < 11 {
                    UiView { collect_selection: index as usize, ..self }.uploading(
                        UploadKind::ALL@[index],
                    )
                } else {
                    (self, ReactionView::Nothing)
                },
                None => (self, ReactionView::Nothing),
            }
        } else if self.tab == 4 {
            match line {
                Some(index) => if index < 13 {
                    UiView { dispatch_selection: index as usize, ..self }.activated(
                        DispatchAction::ALL@[index],
                        snapshot.dispatch_points,
                        computed,
                    )
                } else {
                    (self, ReactionView::Nothing)
                },
                None => (self, ReactionView::Nothing),
            }
        } else if self.tab == 5 {
            match pointed_row(
                areas.content,
                column,
                row,
                self.collect_value_offset as nat,
                snapshot.collect_values.len(),
            ) {
                Some(index) => (
                    UiView {
                        collect_value_popup: Some(
                            ValuePopupState::opened(snapshot.collect_values[index]),
                        ),
                        ..self
                    },
                    ReactionView::Nothing,
                ),
                None => (self, ReactionView::Nothing),
            }
        } else {
            (self, ReactionView::Nothing)
        }
    }

    /// A click; the tab is the one that stands where the mouse points.
    pub open spec fn after_click(
        self,
        column: u16,
        row: u16,
        tab: Option<usize>,
        snapshot: SnapshotState,
        areas: ScreenAreas,
        computed: ComputedView,
    ) -> (UiView, ReactionView) {
        if self.detail is Some {
            (
                if areas.detail.contains(column, row) {
                    self
                } else {
                    UiView { detail: None, ..self }
                },
                ReactionView::Nothing,
            )
        } else if self.collect_value_popup is Some {
            self.value_click(column, row, areas, computed)
        } else if self.dispatch_popup is Some {
            self.form_click(column, row, areas, computed)
        } else if self.fault_popup is Some {
            self.fault_click(column, row, areas)
        } else if !areas.screen.sufficient() {
            (self, ReactionView::Nothing)
        } else {
            match tab {
                Some(tab) => (self.on_tab(tab), ReactionView::Nothing),
                None => self.page_click(column, row, snapshot, areas, computed),
            }
        }
    }

    /// The mouse was used.
    pub open spec fn after_mouse(
        self,
        mouse: MouseInput,
        tab: Option<usize>,
        snapshot: SnapshotState,
        areas: ScreenAreas,
        computed: ComputedView,
    ) -> (UiView, ReactionView) {
        let on_log = self.tab == 1 || self.tab == 2;
        match mouse.kind {
            MouseKind::LeftDown => self.after_click(
                mouse.column,
                mouse.row,
                tab,
                snapshot,
                areas,
                computed,
            ),
            MouseKind::ScrollUp => (
                if on_log {
                    self.earlier()
                } else {
                    self.value_scrolled(mouse.column, mouse.row, snapshot, areas, false)
                },
                ReactionView::Nothing,
            ),
            MouseKind::ScrollDown => (
                if on_log {
                    self.later()
                } else {
                    self.value_scrolled(mouse.column, mouse.row, snapshot, areas, true)
                },
                ReactionView::Nothing,
            ),
            MouseKind::Other => (self, ReactionView::Nothing),
        }
    }
}

impl UiState {
    fn is_covered(&self) -> (result: bool)
        ensures
            result == self@.covered(),
    {
        self.detail.is_some() || self.collect_value_popup.is_some() || self.dispatch_popup.is_some()
            || self.fault_popup.is_some()
    }

    pub fn handle_value_scroll(
        &mut self,
        column: u16,
        row: u16,
        snapshot: &AppSnapshot,
        areas: &ScreenAreas,
        forward: bool,
    )
        ensures
            final(self)@ == old(self)@.value_scrolled(column, row, snapshot@, *areas, forward),
    {
        if self.is_covered() || !areas.screen.is_sufficient() {
            return;
        }
        assert(snapshot@.collect_values.len() == snapshot.collect_values@.len());
        assert(snapshot@.dispatch_current_general.len()
            == snapshot.dispatch_current_general@.len());
        assert(snapshot@.dispatch_current_energy.len() == snapshot.dispatch_current_energy@.len());
        if self.tab == 5 {
            if rect_contains(areas.content, column, row) {
                self.collect_value_offset = scroll_point_offset(
                    self.collect_value_offset,
                    snapshot.collect_values.len(),
                    areas.content,
                    forward,
                );
            }
        } else if self.tab == 6 {
            if rect_contains(areas.general, column, row) {
                self.dispatch_general_offset = scroll_point_offset(
                    self.dispatch_general_offset,
                    snapshot.dispatch_current_general.len(),
                    areas.general,
                    forward,
                );
            } else if rect_contains(areas.energy, column, row) {
                self.dispatch_energy_offset = scroll_point_offset(
                    self.dispatch_energy_offset,
                    snapshot.dispatch_current_energy.len(),
                    areas.energy,
                    forward,
                );
            }
        }
    }

    pub fn handle_collect_value_popup_click(
        &mut self,
        column: u16,
        row: u16,
        areas: &ScreenAreas,
        computed: &Computed,
    ) -> (result: Reaction)
        ensures
            (final(self)@, result@) == old(self)@.value_click(column, row, *areas, computed@),
    {
        if !rect_contains(areas.value, column, row) {
            self.collect_value_popup = None;
            return Reaction::Nothing;
        }
        if rect_contains(areas.value_buttons, column, row) {
            if is_left_half(areas.value_buttons, column) {
                return self.submit_collect_value_popup(computed);
            }
            self.collect_value_popup = None;
        }
        Reaction::Nothing
    }

    fn click_field(&mut self, index: usize)
        ensures
            final(self)@ == old(self)@.field_clicked(index as int),
    {
        if let Some(mut popup) = self.dispatch_popup.take() {
            let fields = action_fields(popup.action);
            if index >= fields.len() {
                self.dispatch_popup = Some(popup);
                return;
            }
            popup.field = index;
            popup.error = String::new();
            self.dispatch_popup = Some(popup);
            if fields[index].is_toggle() {
                self.form.toggle(fields[index]);
            }
        }
    }

    pub fn handle_dispatch_popup_click(
        &mut self,
        column: u16,
        row: u16,
        areas: &ScreenAreas,
        computed: &Computed,
    ) -> (result: Reaction)
        ensures
            (final(self)@, result@) == old(self)@.form_click(column, row, *areas, computed@),
    {
        if !rect_contains(areas.form, column, row) {
            self.dispatch_popup = None;
            return Reaction::Nothing;
        }
        let first: u16 = areas.form_fields.y.saturating_add(2);
        if rect_contains(areas.form_fields, column, row) && row >= first {
            self.click_field((row - first) as usize);
        } else if rect_contains(areas.form_buttons, column, row) {
            if is_left_half(areas.form_buttons, column) {
                return self.submit_dispatch_popup(computed);
            }
            self.dispatch_popup = None;
        }
        Reaction::Nothing
    }

    pub fn handle_fault_popup_click(&mut self, column: u16, row: u16, areas: &ScreenAreas) -> (
        result: Reaction)
        ensures
            (final(self)@, result@) == old(self)@.fault_click(column, row, *areas),
    {
        if !rect_contains(areas.fault, column, row) {
            self.fault_popup = None;
            return Reaction::Nothing;
        }
        match line_at(areas.fault, column, row) {
            Some(index) => {
                if index <= 7 {
                    self.choose_policy(index)
                } else {
                    Reaction::Nothing
                }
            },
            None => Reaction::Nothing,
        }
    }

    fn open_entry(&mut self, snapshot: &AppSnapshot, direction: Direction, pane: Area, row: u16)
        ensures
            final(self)@ == old(self)@.pane_entry(snapshot@, direction, pane, row),
    {
        let bottom: u16 = pane.y.saturating_add(pane.height);
        let end: u16 = if bottom >= 1 {
            bottom - 1
        } else {
            0
        };
        if row <= pane.y || row >= end {
            return;
        }
        let logs = if self.tab == 1 {
            &snapshot.collect_logs
        } else {
            &snapshot.dispatch_logs
        };
        let seen = log_window(logs, direction, self.log_filter, self.log_offset, pane);
        let ghost views = log_views(seen@);
        let index: usize = (row - pane.y.saturating_add(1)) as usize;
        assert(views.len() == seen@.len());
        self.detail = if index < seen.len() {
            assert(views[index as int] == seen@[index as int]@);
            Some(seen[index].copy())
        } else {
            None
        };
    }

    pub fn handle_log_click(
        &mut self,
        column: u16,
        row: u16,
        snapshot: &AppSnapshot,
        areas: &ScreenAreas,
    ) -> (result: Reaction)
        ensures
            (final(self)@, result@) == old(self)@.log_click(column, row, snapshot@, *areas),
    {
        if row == areas.controls.y.saturating_add(1) {
            let clear = Area {
                x: areas.controls.x.saturating_add(1),
                y: row,
                width: 10,
                height: 1,
            };
            let filter = Area {
                x: areas.controls.x.saturating_add(13),
                y: row,
                width: 20,
                height: 1,
            };
            if rect_contains(clear, column, row) {
                return self.clear_logs();
            }
            if rect_contains(filter, column, row) {
                self.next_filter();
            }
            return Reaction::Nothing;
        }
        if rect_contains(areas.incoming, column, row) {
            self.open_entry(snapshot, Direction::Incoming, areas.incoming, row);
        } else if rect_contains(areas.outgoing, column, row) {
            self.open_entry(snapshot, Direction::Outgoing, areas.outgoing, row);
        }
        Reaction::Nothing
    }

    fn handle_page_click(
        &mut self,
        column: u16,
        row: u16,
        snapshot: &AppSnapshot,
        areas: &ScreenAreas,
        computed: &Computed,
    ) -> (result: Reaction)
        ensures
            (final(self)@, result@) == old(self)@.page_click(
                column,
                row,
                snapshot@,
                *areas,
                computed@,
            ),
    {
        if self.tab == 1 || self.tab == 2 {
            return self.handle_log_click(column, row, snapshot, areas);
        }
        if self.tab == 3 {
            if let Some(index) = line_at(areas.content, column, row) {
                if index < 11 {
                    self.collect_selection = index;
                    return self.upload(UploadKind::ALL[index]);
                }
            }
        } else if self.tab == 4 {
            if let Some(index) = line_at(areas.content, column, row) {
                if index < 13 {
                    self.dispatch_selection = index;
                    return self.activate_dispatch_action(
                        DispatchAction::ALL[index],
                        &snapshot.dispatch_points,
                        computed,
                    );
                }
            }
        } else if self.tab == 5 {
            assert(snapshot@.collect_values.len() == snapshot.collect_values@.len());
            if let Some(index) = point_index_at(
                areas.content,
                column,
                row,
                self.collect_value_offset,
                snapshot.collect_values.len(),
            ) {
                assert(snapshot@.collect_values[index as int]
                    == snapshot.collect_values@[index as int]@);
                self.collect_value_popup = Some(
                    CollectValuePopup::new(&snapshot.collect_values[index]),
                );
            }
        }
        Reaction::Nothing
    }

    /// Takes a click; the tab is the one that stands where the mouse points.
    pub fn handle_left_click(
        &mut self,
        column: u16,
        row: u16,
        tab: Option<usize>,
        snapshot: &AppSnapshot,
        areas: &ScreenAreas,
        computed: &Computed,
    ) -> (result: Reaction)
        ensures
            (final(self)@, result@) == old(self)@.after_click(
                column,
                row,
                tab,
                snapshot@,
                *areas,
                computed@,
            ),
    {
        if self.detail.is_some() {
            if !rect_contains(areas.detail, column, row) {
                self.detail = None;
            }
            return Reaction::Nothing;
        }
        if self.collect_value_popup.is_some() {
            return self.handle_collect_value_popup_click(column, row, areas, computed);
        }
        if self.dispatch_popup.is_some() {
            return self.handle_dispatch_popup_click(column, row, areas, computed);
        }
        if self.fault_popup.is_some() {
            return self.handle_fault_popup_click(column, row, areas);
        }
        if !areas.screen.is_sufficient() {
            return Reaction::Nothing;
        }
        match tab {
            Some(tab) => {
                self.select_tab(tab);
                Reaction::Nothing
            },
            None => self.handle_page_click(column, row, snapshot, areas, computed),
        }
    }

    /// Takes what the mouse did, on a screen that is laid out.
    pub fn handle_mouse_in(
        &mut self,
        mouse: MouseInput,
        tab: Option<usize>,
        snapshot: &AppSnapshot,
        areas: &ScreenAreas,
        computed: &Computed,
    ) -> (result: Reaction)
        ensures
            (final(self)@, result@) == old(self)@.after_mouse(
                mouse,
                tab,
                snapshot@,
                *areas,
                computed@,
            ),
    {
        let on_log = self.tab == 1 || self.tab == 2;
        match mouse.kind {
            MouseKind::LeftDown => {
                return self.handle_left_click(
                    mouse.column,
                    mouse.row,
                    tab,
                    snapshot,
                    areas,
                    computed,
                );
            },
            MouseKind::ScrollUp => {
                if on_log {
                    self.scroll_log(true);
                } else {
                    self.handle_value_scroll(mouse.column, mouse.row, snapshot, areas, false);
                }
            },
            MouseKind::ScrollDown => {
                if on_log {
                    self.scroll_log(false);
                } else {
                    self.handle_value_scroll(mouse.column, mouse.row, snapshot, areas, true);
                }
            },
            MouseKind::Other => {},
        }
        Reaction::Nothing
    }

    /// Takes what the mouse did on a screen.
    pub fn handle_mouse(
        &mut self,
        mouse: MouseInput,
        snapshot: &AppSnapshot,
        screen: Area,
        computed: &Computed,
    ) -> (result: Reaction)
        requires
            old(self)@.sound(),
        ensures
            exists|areas: ScreenAreas, tab: Option<usize>|
                areas.laid_out(screen) && #[trigger] pointed_tab(
                    areas.tabs,
                    tab_widths(),
                    mouse.column,
                    mouse.row,
                    tab,
                ) && (final(self)@, result@) == old(self)@.after_mouse(
                    mouse,
                    tab,
                    snapshot@,
                    areas,
                    computed@,
                ),
            final(self)@.sound(),
    {
        let areas = screen_areas(screen);
        let tab = tab_at(areas.tabs, mouse.column, mouse.row);
        assert(pointed_tab(areas.tabs, tab_widths(), mouse.column, mouse.row, tab));
        let result = self.handle_mouse_in(mouse, tab, snapshot, &areas, computed);
        proof {
            law_mouse_keeps_selections(old(self)@, mouse, tab, snapshot@, areas, computed@);
        }
        result
    }
}

// ---------------------------------------------------------------------------
// Laws.
/// Whatever the mouse does, the selections stay among the choices.
pub proof fn law_mouse_keeps_selections(
    state: UiView,
    mouse: MouseInput,
    tab: Option<usize>,
    snapshot: SnapshotState,
    areas: ScreenAreas,
    computed: ComputedView,
)
    requires
        state.sound(),
        tab matches Some(index) ==> index < TAB_COUNT,
    ensures
        state.after_mouse(mouse, tab, snapshot, areas, computed).0.sound(),
{
}

/// Going to the earliest entry of a log and opening the one at hand opens the
/// first that is shown; a step to a later one then leads to the one behind it.
pub proof fn law_the_earliest_entry_can_be_opened(state: UiView, snapshot: SnapshotState)
    requires
        shown_entries(state.logs(snapshot), state.log_filter).len() <= usize::MAX,
    ensures
        ({
            let shown = shown_entries(state.logs(snapshot), state.log_filter);
            let press = |key: Key| KeyPress { key, control: false, shift: false };
            let first = state.log_key(press(Key::Home), snapshot).0;
            let second = first.log_key(press(Key::Down), snapshot).0;
            &&& shown.len() > 0 ==> first.log_key(press(Key::Enter), snapshot).0.detail == Some(
                shown[0],
            )
            &&& shown.len() > 1 ==> second.log_key(press(Key::Enter), snapshot).0.detail == Some(
                shown[1],
            )
        }),
{
}

/// Only the tables under the mouse scroll.
pub proof fn law_panes_scroll_independently(
    state: UiView,
    column: u16,
    row: u16,
    snapshot: SnapshotState,
    areas: ScreenAreas,
    forward: bool,
)
    ensures
        ({
            let after = state.value_scrolled(column, row, snapshot, areas, forward);
            &&& after == UiView {
                collect_value_offset: after.collect_value_offset,
                dispatch_general_offset: after.dispatch_general_offset,
                dispatch_energy_offset: after.dispatch_energy_offset,
                ..state
            }
            &&& after.collect_value_offset != state.collect_value_offset ==> state.tab == 5
                && areas.content.contains(column, row)
            &&& after.dispatch_general_offset != state.dispatch_general_offset ==> state.tab == 6
                && areas.general.contains(column, row)
            &&& after.dispatch_energy_offset != state.dispatch_energy_offset ==> state.tab == 6
                && areas.energy.contains(column, row)
        }),
{
}

/// Keys and clicks, above all those that switch to another page, leave the
/// tables of values where they were scrolled to.
pub proof fn law_pages_keep_their_offsets(
    state: UiView,
    press: KeyPress,
    column: u16,
    row: u16,
    tab: Option<usize>,
    snapshot: SnapshotState,
    areas: ScreenAreas,
    computed: ComputedView,
)
    ensures
        same_offsets(state, state.after_key(press, snapshot, computed).0),
        same_offsets(
            state,
            state.after_click(column, row, tab, snapshot, areas, computed).0,
        ),
{
}

/// The tables of values are scrolled alike.
pub open spec fn same_offsets(left: UiView, right: UiView) -> bool {
    &&& left.collect_value_offset == right.collect_value_offset
    &&& left.dispatch_general_offset == right.dispatch_general_offset
    &&& left.dispatch_energy_offset == right.dispatch_energy_offset
}

/// The row that is clicked is the one that is seen there: the popup that opens
/// is that of the point at the offset with which the table is drawn.
pub proof fn law_click_opens_the_row_that_is_seen(
    state: UiView,
    column: u16,
    row: u16,
    snapshot: SnapshotState,
    areas: ScreenAreas,
    computed: ComputedView,
)
    requires
        state.tab == 5,
    ensures
        ({
            let (after, _) = state.page_click(column, row, snapshot, areas, computed);
            let first = crate::ui::area::offset_within(
                state.collect_value_offset as nat,
                crate::ui::area::last_offset(snapshot.collect_values.len(), areas.content),
            );
            let index = first + (row - cells_after(areas.content.y, 2));
            after.collect_value_popup != state.collect_value_popup ==> 0 <= index
                < snapshot.collect_values.len() && after.collect_value_popup == Some(
                ValuePopupState::opened(snapshot.collect_values[index]),
            )
        }),
{
}

/// A refused command leaves every popup open.
pub proof fn law_refused_commands_close_nothing(
    state: UiView,
    success: Seq<char>,
    closes: Closes,
    refusal: Seq<char>,
)
    ensures
        ({
            let after = state.concluded(success, closes, Some(refusal));
            &&& after.dispatch_popup == state.dispatch_popup
            &&& after.collect_value_popup == state.collect_value_popup
            &&& after.form == state.form
        }),
{
}

// ---------------------------------------------------------------------------
// Laws of keys.
/// Nothing lies over the page.
pub open spec fn is_plain(state: UiView) -> bool {
    state.detail is None && state.collect_value_popup is None && state.dispatch_popup is None
        && state.fault_popup is None
}

/// The reaction asks for the command.
pub open spec fn asks_for(reaction: ReactionView, command: CommandView, closes: Closes) -> bool {
    reaction matches ReactionView::Submit(submission) && submission.command == command
        && submission.closes == closes
}

/// The program ends by control and `c` from anywhere, and by `q` from a page that
/// nothing lies over; no other key ends it.
pub proof fn law_quit_keys(
    state: UiView,
    press: KeyPress,
    snapshot: SnapshotState,
    computed: ComputedView,
)
    ensures
        ({
            let (after, reaction) = state.after_key(press, snapshot, computed);
            &&& (reaction is Quit) <==> (press.control && press.key == Key::Char('c')) || (
            is_plain(state) && press.key == Key::Char('q'))
            &&& reaction is Quit ==> after == state
        }),
{
}

/// A number goes to the page of that number, and left and right to the page
/// beside, around the seven of them; a page begins at the latest entry of its
/// log. `r` asks for a reload and `f` opens the policies.
pub proof fn law_pages_by_keys(
    state: UiView,
    press: KeyPress,
    snapshot: SnapshotState,
    computed: ComputedView,
)
    requires
        is_plain(state),
        state.tab < 7,
        !press.control,
    ensures
        ({
            let (after, reaction) = state.after_key(press, snapshot, computed);
            let moved = UiView { tab: after.tab, log_offset: 0, ..state };
            &&& press.key == Key::Char('1') ==> after == moved && after.tab == 0
            &&& press.key == Key::Char('2') ==> after == moved && after.tab == 1
            &&& press.key == Key::Char('3') ==> after == moved && after.tab == 2
            &&& press.key == Key::Char('4') ==> after == moved && after.tab == 3
            &&& press.key == Key::Char('5') ==> after == moved && after.tab == 4
            &&& press.key == Key::Char('6') ==> after == moved && after.tab == 5
            &&& press.key == Key::Char('7') ==> after == moved && after.tab == 6
            &&& press.key is Left ==> after == moved && after.tab == (if state.tab == 0 {
                6
            } else {
                state.tab - 1
            })
            &&& press.key is Right ==> after == moved && after.tab == (if state.tab == 6 {
                0
            } else {
                state.tab + 1
            })
            &&& press.key == Key::Char('r') ==> after == state && asks_for(
                reaction,
                CommandView::ReloadConfig,
                Closes::Nothing,
            )
            &&& press.key == Key::Char('f') ==> after == (UiView { fault_popup: Some(0), ..state })
                && reaction is Nothing
        }),
{
    assert('1' as u32 == 0x31 && '2' as u32 == 0x32 && '7' as u32 == 0x37);
}

/// An entry that is open is closed by escape, enter or `q`, and by no other key;
/// nothing else happens meanwhile.
pub proof fn law_details_are_closed_by_keys(
    state: UiView,
    press: KeyPress,
    snapshot: SnapshotState,
    computed: ComputedView,
)
    requires
        state.detail is Some,
        !press.control,
    ensures
        ({
            let (after, reaction) = state.after_key(press, snapshot, computed);
            &&& reaction is Nothing
            &&& after == (UiView { detail: after.detail, ..state })
            &&& after.detail == (if press.key is Esc || press.key is Enter || press.key
                == Key::Char('q') {
                None
            } else {
                state.detail
            })
        }),
{
}

/// On the page of a log up leads to earlier entries and down to later ones, home
/// to the earliest and end to the latest; enter opens the entry at hand, `p`
/// takes the next filter, and `c` clears the log of the page.
pub proof fn law_logs_by_keys(
    state: UiView,
    press: KeyPress,
    snapshot: SnapshotState,
    computed: ComputedView,
)
    requires
        is_plain(state),
        state.tab == 1 || state.tab == 2,
        !press.control,
        state.log_offset < usize::MAX,
    ensures
        ({
            let (after, reaction) = state.after_key(press, snapshot, computed);
            let side = if state.tab == 1 {
                Side::Collect
            } else {
                Side::Dispatch
            };
            let logs = if state.tab == 1 {
                snapshot.collect_logs
            } else {
                snapshot.dispatch_logs
            };
            let placed = UiView { log_offset: after.log_offset, ..state };
            &&& press.key is Up || press.key is PageUp ==> after == placed && after.log_offset
                == state.log_offset + 1
            &&& press.key is Down || press.key is PageDown ==> after == placed && after.log_offset
                == (if state.log_offset == 0 {
                0
            } else {
                state.log_offset - 1
            })
            &&& press.key is End ==> after == placed && after.log_offset == 0
            &&& press.key is Home ==> after == placed && (logs.len() <= usize::MAX
                ==> after.log_offset == earliest_offset(logs, state.log_filter))
            &&& press.key is Enter ==> after == (UiView { detail: after.detail, ..state })
                && after.detail == entry_back(logs, state.log_filter, state.log_offset as nat)
            &&& press.key == Key::Char('p') ==> after == (UiView {
                log_filter: state.log_filter.following(),
                log_offset: 0,
                ..state
            })
            &&& press.key == Key::Char('c') ==> after == (UiView { log_offset: 0, ..state })
                && asks_for(reaction, CommandView::ClearLogs(side), Closes::Nothing)
            &&& press.key != Key::Char('c') && press.key != Key::Char('q') && press.key
                != Key::Char('r') ==> reaction is Nothing
        }),
{
    lemma_shown_are_no_more(
        if state.tab == 1 {
            snapshot.collect_logs
        } else {
            snapshot.dispatch_logs
        },
        state.log_filter,
    );
}

proof fn lemma_shown_are_no_more(logs: Seq<LogView>, filter: LogFilter)
    ensures
        shown_entries(logs, filter).len() <= logs.len(),
    decreases logs.len(),
{
    if logs.len() > 0 {
        lemma_shown_are_no_more(logs.drop_last(), filter);
    }
}

/// The report in a line of its list.
pub open spec fn listed_report(line: int) -> UploadKind {
    if line == 0 {
        UploadKind::CurrentValues
    } else if line == 1 {
        UploadKind::RefreshAll
    } else if line == 2 {
        UploadKind::SinglePoint
    } else if line == 3 {
        UploadKind::DoublePoint
    } else if line == 4 {
        UploadKind::Normalized
    } else if line == 5 {
        UploadKind::NormalizedNoQuality
    } else if line == 6 {
        UploadKind::Float
    } else if line == 7 {
        UploadKind::Counter
    } else if line == 8 {
        UploadKind::SingleSoe
    } else if line == 9 {
        UploadKind::DoubleSoe
    } else {
        UploadKind::InitializationEnd
    }
}

/// The command in a line of its list.
pub open spec fn listed_command(line: int) -> DispatchAction {
    if line == 0 {
        DispatchAction::StartDt
    } else if line == 1 {
        DispatchAction::StopDt
    } else if line == 2 {
        DispatchAction::TestFr
    } else if line == 3 {
        DispatchAction::GeneralInterrogation
    } else if line == 4 {
        DispatchAction::CounterInterrogation
    } else if line == 5 {
        DispatchAction::ClockSync
    } else if line == 6 {
        DispatchAction::Read
    } else if line == 7 {
        DispatchAction::SingleControl
    } else if line == 8 {
        DispatchAction::DoubleControl
    } else if line == 9 {
        DispatchAction::RegulatingStep
    } else if line == 10 {
        DispatchAction::NormalizedSetpoint
    } else if line == 11 {
        DispatchAction::ScaledSetpoint
    } else {
        DispatchAction::FloatSetpoint
    }
}

/// The policy in a line of its list; the first line is for none.
pub open spec fn listed_policy(line: int) -> Option<FaultPolicy> {
    if line == 0 {
        None
    } else if line == 1 {
        Some(FaultPolicy::Success)
    } else if line == 2 {
        Some(FaultPolicy::RejectSelect)
    } else if line == 3 {
        Some(FaultPolicy::RejectExecute)
    } else if line == 4 {
        Some(FaultPolicy::ActConOnly)
    } else if line == 5 {
        Some(FaultPolicy::Silent)
    } else if line == 6 {
        Some(FaultPolicy::DelaySuccess)
    } else {
        Some(FaultPolicy::Disconnect)
    }
}

/// On the page of reports up and down move in the list of eleven, and enter asks
/// for the report of the line.
pub proof fn law_reports_by_keys(
    state: UiView,
    press: KeyPress,
    snapshot: SnapshotState,
    computed: ComputedView,
)
    requires
        is_plain(state),
        state.tab == 3,
        state.collect_selection < 11,
        !press.control,
    ensures
        ({
            let (after, reaction) = state.after_key(press, snapshot, computed);
            let chosen = UiView { collect_selection: after.collect_selection, ..state };
            &&& press.key is Up ==> after == chosen && reaction is Nothing
                && after.collect_selection == (if state.collect_selection == 0 {
                0
            } else {
                state.collect_selection - 1
            })
            &&& press.key is Down ==> after == chosen && reaction is Nothing
                && after.collect_selection == (if state.collect_selection == 10 {
                10
            } else {
                state.collect_selection + 1
            })
            &&& press.key is Enter ==> after == state && asks_for(
                reaction,
                CommandView::CollectUpload(listed_report(state.collect_selection as int)),
                Closes::Nothing,
            )
        }),
{
}

/// On the page of commands up and down, or `k` and `j`, move in the list of
/// thirteen; enter opens the form of the line, filled in for the first point, or
/// asks for the command where it has no fields.
pub proof fn law_commands_by_keys(
    state: UiView,
    press: KeyPress,
    snapshot: SnapshotState,
    computed: ComputedView,
)
    requires
        is_plain(state),
        state.tab == 4,
        state.dispatch_selection < 13,
        !press.control,
    ensures
        ({
            let (after, reaction) = state.after_key(press, snapshot, computed);
            let chosen = UiView { dispatch_selection: after.dispatch_selection, ..state };
            let action = listed_command(state.dispatch_selection as int);
            let form = state.form.hinted(action, snapshot.dispatch_points, computed.middles);
            &&& press.key is Up || press.key == Key::Char('k') ==> after == chosen && reaction
                is Nothing && after.dispatch_selection == (if state.dispatch_selection == 0 {
                0
            } else {
                state.dispatch_selection - 1
            })
            &&& press.key is Down || press.key == Key::Char('j') ==> after == chosen && reaction
                is Nothing && after.dispatch_selection == (if state.dispatch_selection == 12 {
                12
            } else {
                state.dispatch_selection + 1
            })
            &&& press.key is Enter && state.dispatch_selection >= 3 ==> reaction is Nothing && after
                == (UiView {
                form,
                dispatch_popup: Some(PopupState { action, field: 0, error: Seq::empty() }),
                ..state
            })
            &&& press.key is Enter && state.dispatch_selection < 3 ==> after == (UiView {
                form,
                ..state
            }) && (reaction matches ReactionView::Submit(submission) && (
            submission.command matches CommandView::Dispatch(request) && request.action == action))
        }),
{
}

/// Over a page the form of a command takes the keys: escape closes it, tab and
/// back-tab step through its fields, backspace takes away a character, enter
/// sends the command or shows why it cannot be sent, `s` and `t` switch phase and
/// test, and any other character goes to the field where the field takes it.
pub proof fn law_forms_by_keys(
    state: UiView,
    press: KeyPress,
    snapshot: SnapshotState,
    computed: ComputedView,
    popup: PopupState,
)
    requires
        state.detail is None,
        state.collect_value_popup is None,
        state.dispatch_popup == Some(popup),
        popup.field < fields_of(popup.action).len(),
        !press.control,
    ensures
        ({
            let (after, reaction) = state.after_key(press, snapshot, computed);
            let field = fields_of(popup.action)[popup.field as int];
            &&& press.key !is Enter ==> reaction is Nothing
            &&& press.key is Esc ==> after == (UiView { dispatch_popup: None, ..state })
            &&& press.key is Tab || press.key is BackTab ==> {
                let backwards = press.key is BackTab || press.shift;
                after == (UiView {
                    dispatch_popup: Some(
                        PopupState { error: Seq::empty(), ..popup.stepped(backwards) },
                    ),
                    ..state
                })
            }
            &&& press.key is Backspace ==> match state.form.text(field) {
                Some(text) => after == (UiView {
                    form: state.form.with_text(
                        field,
                        if text.len() == 0 {
                            text
                        } else {
                            text.drop_last()
                        },
                    ),
                    ..state
                }),
                None => after == state,
            }
            &&& press.key == Key::Char('s') ==> after == (UiView {
                form: state.form.toggled(FormField::Phase),
                ..state
            })
            &&& press.key == Key::Char('t') ==> after == (UiView {
                form: state.form.toggled(FormField::Test),
                ..state
            })
            &&& press.key matches Key::Char(c) ==> c != 's' && c != 't' ==> match state.form.text(
                field,
            ) {
                Some(text) => if field_takes(field, c) {
                    after == (UiView {
                        form: state.form.with_text(field, text + seq![c]),
                        dispatch_popup: Some(PopupState { error: Seq::empty(), ..popup }),
                        ..state
                    })
                } else {
                    after == state
                },
                None => after == state,
            }
            &&& press.key is Enter ==> match state.form.requested(popup.action, computed.value) {
                Ok(request) => after == state && asks_for(
                    reaction,
                    CommandView::Dispatch(request),
                    Closes::Form,
                ),
                Err(error) => reaction is Nothing && after == (UiView {
                    dispatch_popup: Some(PopupState { error, ..popup }),
                    ..state
                }),
            }
        }),
{
    if let Key::Char(c) = press.key {
        let field = fields_of(popup.action)[popup.field as int];
        if let Some(text) = state.form.text(field) {
            assert(text.push(c) =~= text + seq![c]);
        }
    }
}

/// Over a page the popup of a point takes the keys: escape closes it, backspace
/// and the characters of a number edit the value, and enter sets it where it is a
/// finite number; else it shows why not.
pub proof fn law_values_by_keys(
    state: UiView,
    press: KeyPress,
    snapshot: SnapshotState,
    computed: ComputedView,
    popup: ValuePopupState,
)
    requires
        state.detail is None,
        state.collect_value_popup == Some(popup),
        !press.control,
    ensures
        ({
            let (after, reaction) = state.after_key(press, snapshot, computed);
            let edited = |value: Seq<char>|
                UiView {
                    collect_value_popup: Some(
                        ValuePopupState { value, error: Seq::empty(), ..popup },
                    ),
                    ..state
                };
            &&& press.key !is Enter ==> reaction is Nothing
            &&& press.key is Esc ==> after == (UiView { collect_value_popup: None, ..state })
            &&& press.key is Backspace ==> after == edited(
                if popup.value.len() == 0 {
                    popup.value
                } else {
                    popup.value.drop_last()
                },
            )
            &&& press.key matches Key::Char(c) ==> if c == '0' || c == '1' || c == '2' || c == '3'
                || c == '4' || c == '5' || c == '6' || c == '7' || c == '8' || c == '9' || c == '+'
                || c == '-' || c == '.' {
                after == edited(popup.value + seq![c])
            } else {
                after == state
            }
            &&& press.key is Enter ==> match computed.point {
                Some(sample) => if crate::number::double_finite(sample.value.double) {
                    after == state && asks_for(
                        reaction,
                        CommandView::SetCollectValue {
                            ioa: popup.ioa,
                            type_id: popup.type_id,
                            value: sample,
                        },
                        Closes::Value,
                    )
                } else {
                    reaction is Nothing && (after.collect_value_popup matches Some(shown)
                        && shown.error.len() > 0 && shown.value == popup.value)
                },
                None => reaction is Nothing && (after.collect_value_popup matches Some(shown)
                    && shown.error.len() > 0 && shown.value == popup.value),
            }
        }),
{
    reveal_strlit("采集点值");
    reveal_strlit("采集点值必须是有限数字");
    if let Key::Char(c) = press.key {
        assert(popup.value.push(c) =~= popup.value + seq![c]);
    }
}

/// Over a page the list of policies takes the keys: up and down move in its eight
/// lines, enter sets the policy of the line and closes the list, and escape
/// closes it.
pub proof fn law_policies_by_keys(
    state: UiView,
    press: KeyPress,
    snapshot: SnapshotState,
    computed: ComputedView,
    line: usize,
)
    requires
        state.detail is None,
        state.collect_value_popup is None,
        state.dispatch_popup is None,
        state.fault_popup == Some(line),
        line <= 7,
        !press.control,
    ensures
        ({
            let (after, reaction) = state.after_key(press, snapshot, computed);
            let moved = UiView { fault_popup: after.fault_popup, ..state };
            &&& after == moved
            &&& press.key !is Enter ==> reaction is Nothing
            &&& press.key is Esc || press.key is Enter ==> after.fault_popup is None
            &&& press.key is Enter ==> asks_for(
                reaction,
                CommandView::SetFaultPolicy(listed_policy(line as int)),
                Closes::Nothing,
            )
            &&& press.key is Up && line > 0 ==> after.fault_popup == Some((line - 1) as usize)
            &&& press.key is Up && line == 0 ==> after.fault_popup == Some(0usize)
            &&& press.key is Down && line < 7 ==> after.fault_popup == Some((line + 1) as usize)
            &&& press.key is Down && line == 7 ==> after.fault_popup == Some(7usize)
        }),
{
}

/// A command that is taken closes the popup that it came from, and no other, and
/// says so; the form keeps what was filled in.
pub proof fn law_taken_commands_close_their_popup(
    state: UiView,
    success: Seq<char>,
    closes: Closes,
    refusal: Option<Seq<char>>,
)
    ensures
        ({
            let after = state.concluded(success, closes, refusal);
            &&& after == (UiView {
                last_action: after.last_action,
                dispatch_popup: after.dispatch_popup,
                collect_value_popup: after.collect_value_popup,
                ..state
            })
            &&& refusal is None ==> after.last_action == success
            &&& refusal matches Some(text) ==> after.last_action == "命令队列拒绝请求: "@ + text
            &&& after.dispatch_popup == (if refusal is None && closes is Form {
                None
            } else {
                state.dispatch_popup
            })
            &&& after.collect_value_popup == (if refusal is None && closes is Value {
                None
            } else {
                state.collect_value_popup
            })
        }),
{
}

// ---------------------------------------------------------------------------
// Laws of the mouse.
/// A click beside a popup closes it, and does nothing else; only the topmost one
/// is clicked at.
pub proof fn law_clicks_beside_close(
    state: UiView,
    column: u16,
    row: u16,
    tab: Option<usize>,
    snapshot: SnapshotState,
    areas: ScreenAreas,
    computed: ComputedView,
)
    ensures
        ({
            let (after, reaction) = state.after_click(
                column,
                row,
                tab,
                snapshot,
                areas,
                computed,
            );
            &&& state.detail is Some ==> reaction is Nothing && after == (UiView {
                detail: if areas.detail.contains(column, row) {
                    state.detail
                } else {
                    None
                },
                ..state
            })
            &&& state.detail is None && state.collect_value_popup is Some && !areas.value.contains(
                column,
                row,
            ) ==> reaction is Nothing && after == (UiView { collect_value_popup: None, ..state })
            &&& state.detail is None && state.collect_value_popup is None && state.dispatch_popup
                is Some && !areas.form.contains(column, row) ==> reaction is Nothing && after
                == (UiView { dispatch_popup: None, ..state })
            &&& state.detail is None && state.collect_value_popup is None && state.dispatch_popup
                is None && state.fault_popup is Some && !areas.fault.contains(column, row)
                ==> reaction is Nothing && after == (UiView { fault_popup: None, ..state })
            &&& is_plain(state) && !areas.screen.sufficient() ==> after == state && reaction
                is Nothing
            &&& is_plain(state) && areas.screen.sufficient() ==> (tab matches Some(index) ==> after
                == (UiView { tab: index, log_offset: 0, ..state }) && reaction is Nothing)
        }),
{
}

/// In a popup the left button under it does what enter does and the right one
/// what escape does; a click on a field of a form goes to the field, and switches
/// it where it is switched.
pub proof fn law_clicks_in_popups(
    state: UiView,
    column: u16,
    row: u16,
    tab: Option<usize>,
    snapshot: SnapshotState,
    areas: ScreenAreas,
    computed: ComputedView,
)
    requires
        state.detail is None,
        areas.form.fits() && areas.form_fields.fits() && areas.form_buttons.fits()
            && areas.value.fits() && areas.value_buttons.fits(),
        areas.form_fields.height >= 2,
    ensures
        ({
            let outcome = state.after_click(column, row, tab, snapshot, areas, computed);
            let press = |key: Key| KeyPress { key, control: false, shift: false };
            let by_key = |key: Key| state.after_key(press(key), snapshot, computed);
            &&& state.collect_value_popup is Some && areas.value.contains(column, row)
                && areas.value_buttons.contains(column, row) ==> outcome == (if 2 * (column
                - areas.value_buttons.x) < areas.value_buttons.width - areas.value_buttons.width % 2 {
                by_key(Key::Enter)
            } else {
                by_key(Key::Esc)
            })
            &&& state.collect_value_popup is None && state.dispatch_popup is Some
                && areas.form.contains(column, row) && !areas.form_fields.contains(column, row)
                && areas.form_buttons.contains(column, row) ==> outcome == (if 2 * (column
                - areas.form_buttons.x) < areas.form_buttons.width - areas.form_buttons.width % 2 {
                by_key(Key::Enter)
            } else {
                by_key(Key::Esc)
            })
            &&& state.collect_value_popup is None && areas.form.contains(column, row)
                && areas.form_fields.contains(column, row) && row >= areas.form_fields.y + 2 ==> (
            state.dispatch_popup matches Some(popup) ==> {
                let line = row - areas.form_fields.y - 2;
                let fields = fields_of(popup.action);
                let (after, reaction) = outcome;
                &&& reaction is Nothing
                &&& line >= fields.len() ==> after == state
                &&& line < fields.len() ==> {
                    &&& after.dispatch_popup == Some(
                        PopupState { field: line as usize, error: Seq::empty(), ..popup },
                    )
                    &&& after.form == (if fields[line] is Phase || fields[line] is Test {
                        state.form.toggled(fields[line])
                    } else {
                        state.form
                    })
                }
            })
        }),
{
}

/// A click on a line of a list does what enter does on that line: it asks for
/// the report, opens the command or sets the policy.
pub proof fn law_clicks_on_lists(
    state: UiView,
    column: u16,
    row: u16,
    snapshot: SnapshotState,
    areas: ScreenAreas,
    computed: ComputedView,
    line: int,
)
    requires
        areas.screen.sufficient(),
        areas.content.fits(),
        areas.fault.fits(),
        areas.content.height >= 1,
        areas.fault.height >= 1,
        0 <= line,
    ensures
        ({
            let (after, reaction) = state.after_click(
                column,
                row,
                None,
                snapshot,
                areas,
                computed,
            );
            &&& is_plain(state) && areas.content.contains(column, row) && row == areas.content.y + 1
                + line ==> {
                &&& state.tab == 3 && line < 11 ==> after == (UiView {
                    collect_selection: line as usize,
                    ..state
                }) && asks_for(
                    reaction,
                    CommandView::CollectUpload(listed_report(line)),
                    Closes::Nothing,
                )
                &&& state.tab == 3 && line >= 11 ==> after == state && reaction is Nothing
                &&& state.tab == 4 && 3 <= line < 13 ==> after.dispatch_selection == line
                    && reaction is Nothing && after.dispatch_popup == Some(
                    (PopupState { action: listed_command(line), field: 0, error: Seq::empty() }),
                )
                &&& state.tab == 4 && line < 3 ==> after.dispatch_selection == line && (
                reaction matches ReactionView::Submit(submission) && (
                submission.command matches CommandView::Dispatch(request) && request.action
                    == listed_command(line)))
                &&& state.tab == 4 && line >= 13 ==> after == state && reaction is Nothing
            }
            &&& state.detail is None && state.collect_value_popup is None && state.dispatch_popup
                is None && state.fault_popup is Some && areas.fault.contains(column, row) && row
                == areas.fault.y + 1 + line ==> {
                &&& line <= 7 ==> after == (UiView { fault_popup: None, ..state }) && asks_for(
                    reaction,
                    CommandView::SetFaultPolicy(listed_policy(line)),
                    Closes::Nothing,
                )
                &&& line > 7 ==> after == state && reaction is Nothing
            }
        }),
{
}

/// The wheel moves a log to earlier entries upwards and to later ones downwards,
/// and else the table of values under it; other buttons do nothing.
pub proof fn law_the_wheel_moves_logs_and_tables(
    state: UiView,
    mouse: MouseInput,
    tab: Option<usize>,
    snapshot: SnapshotState,
    areas: ScreenAreas,
    computed: ComputedView,
)
    requires
        mouse.kind !is LeftDown,
        state.log_offset < usize::MAX,
    ensures
        ({
            let (after, reaction) = state.after_mouse(mouse, tab, snapshot, areas, computed);
            let logs = state.tab == 1 || state.tab == 2;
            let forward = mouse.kind is ScrollDown;
            &&& reaction is Nothing
            &&& mouse.kind is Other ==> after == state
            &&& logs && mouse.kind is ScrollUp ==> after == (UiView {
                log_offset: (state.log_offset + 1) as usize,
                ..state
            })
            &&& logs && mouse.kind is ScrollDown ==> after == (UiView {
                log_offset: if state.log_offset == 0 {
                    0
                } else {
                    (state.log_offset - 1) as usize
                },
                ..state
            })
            &&& state.tab == 5 && is_plain(state) && areas.screen.sufficient()
                && areas.content.contains(mouse.column, mouse.row) && mouse.kind !is Other ==> after
                == (UiView {
                collect_value_offset: scrolled(
                    state.collect_value_offset as nat,
                    snapshot.collect_values.len(),
                    areas.content,
                    forward,
                ) as usize,
                ..state
            })
            &&& state.tab == 6 && is_plain(state) && areas.screen.sufficient()
                && areas.general.contains(mouse.column, mouse.row) && mouse.kind !is Other ==> after
                == (UiView {
                dispatch_general_offset: scrolled(
                    state.dispatch_general_offset as nat,
                    snapshot.dispatch_current_general.len(),
                    areas.general,
                    forward,
                ) as usize,
                ..state
            })
            &&& state.tab == 6 && is_plain(state) && areas.screen.sufficient()
                && !areas.general.contains(mouse.column, mouse.row) && areas.energy.contains(
                mouse.column,
                mouse.row,
            ) && mouse.kind !is Other ==> after == (UiView {
                dispatch_energy_offset: scrolled(
                    state.dispatch_energy_offset as nat,
                    snapshot.dispatch_current_energy.len(),
                    areas.energy,
                    forward,
                ) as usize,
                ..state
            })
            &&& !logs && (!is_plain(state) || !areas.screen.sufficient()) ==> after == state
            &&& !logs && state.tab != 5 && state.tab != 6 ==> after == state
        }),
{
}

/// A click on a log opens the entry that is drawn there; the two buttons above it
/// clear the log and take the next filter.
pub proof fn law_clicks_on_logs(
    state: UiView,
    column: u16,
    row: u16,
    snapshot: SnapshotState,
    areas: ScreenAreas,
    computed: ComputedView,
)
    requires
        is_plain(state),
        state.tab == 1 || state.tab == 2,
        areas.screen.sufficient(),
        areas.controls.fits() && areas.incoming.fits() && areas.outgoing.fits(),
        areas.controls.height >= 2,
        areas.controls.x + 33 <= u16::MAX,
        areas.incoming.height > 2 && areas.outgoing.height > 2,
        areas.incoming.y > areas.controls.y + 1 && areas.outgoing.y > areas.controls.y + 1,
    ensures
        ({
            let (after, reaction) = state.after_click(
                column,
                row,
                None,
                snapshot,
                areas,
                computed,
            );
            let logs = if state.tab == 1 {
                snapshot.collect_logs
            } else {
                snapshot.dispatch_logs
            };
            let side = if state.tab == 1 {
                Side::Collect
            } else {
                Side::Dispatch
            };
            let over = column - areas.controls.x;
            &&& row == areas.controls.y + 1 && 1 <= over <= 10 ==> after == (UiView {
                log_offset: 0,
                ..state
            }) && asks_for(reaction, CommandView::ClearLogs(side), Closes::Nothing)
            &&& row == areas.controls.y + 1 && 13 <= over <= 32 ==> reaction is Nothing && after
                == (UiView { log_filter: state.log_filter.following(), log_offset: 0, ..state })
            &&& row == areas.controls.y + 1 && !(1 <= over <= 10) && !(13 <= over <= 32) ==> after
                == state && reaction is Nothing
            &&& areas.incoming.contains(column, row) ==> {
                let seen = window(
                    logs,
                    Direction::Incoming,
                    state.log_filter,
                    state.log_offset as nat,
                    areas.incoming,
                );
                let line = row - areas.incoming.y - 1;
                &&& reaction is Nothing
                &&& 0 <= line < seen.len() ==> after == (UiView {
                    detail: Some(seen[line]),
                    ..state
                })
                &&& !(0 <= line < seen.len()) ==> after == state
            }
            &&& areas.outgoing.contains(column, row) && !areas.incoming.contains(column, row) ==> {
                let seen = window(
                    logs,
                    Direction::Outgoing,
                    state.log_filter,
                    state.log_offset as nat,
                    areas.outgoing,
                );
                let line = row - areas.outgoing.y - 1;
                &&& reaction is Nothing
                &&& 0 <= line < seen.len() ==> after == (UiView {
                    detail: Some(seen[line]),
                    ..state
                })
                &&& !(0 <= line < seen.len()) ==> after == state
            }
        }),
{
}

} // verus!
