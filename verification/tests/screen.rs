//! The screen of the operator.

use agcavc104test::config::{
    CollectSettings, DispatchPointConfig, DispatchSettings, ProtocolSettings, ToolConfig, UiSettings,
};
use agcavc104test::model::{
    AppSnapshot, ConnectionPhase, ConnectionView, ControlPhase, Direction, DispatchAction,
    DispatchPointKind, DispatchPointPurpose, FaultPolicy, LogCategory, LogEntry, PointView,
    RuntimeCommand, Severity, Side, UploadKind,
};
use agcavc104test::number::{Real, Sample};
use agcavc104test::runtime::initial_snapshot;
use agcavc104test::ui::area::{
    centered_rect, clamped_point_offset, dispatch_value_areas, log_areas, main_content_area,
    point_table_visible_rows, popup_parts, rect_contains, screen_areas, scroll_point_offset,
    status_areas, tab_among, tab_at, tab_title, Area, TAB_COUNT,
};
use agcavc104test::ui::display::{
    category_label, clock_label, collect_commands, connection_text, dispatch_commands,
    fault_choices, form_rows, format_optional_time, format_time, log_detail, log_line, log_shade,
    log_text, point_cells, recent_system_events, small_screen_label, status_text, value_text, Shade,
};
use agcavc104test::ui::form::{
    action_fields, valid_form_character, CollectValuePopup, DispatchForm, DispatchPopup, FormField,
};
use agcavc104test::ui::log::{find_entry, log_window, LogFilter};
use agcavc104test::ui::screen::{
    Closes, Computed, Key, KeyPress, MouseInput, MouseKind, Reaction, Submission, UiState,
};
use agcavc104test::clock::LocalTime;
use std::collections::VecDeque;

fn number(value: f64) -> Real {
    Real { double: value.to_bits(), single: (value as f32).to_bits() }
}

fn sample(value: f64) -> Sample {
    Sample {
        value: number(value),
        plain: format!("{value}"),
        rounded: format!("{value:.0}"),
        fixed: format!("{value:.3}"),
    }
}

fn hint(kind: DispatchPointKind, ioa: u32) -> DispatchPointConfig {
    DispatchPointConfig {
        name: "yk".to_owned(),
        ioa,
        kind,
        purpose: DispatchPointPurpose::Command,
        min: None,
        max: None,
        default_value: None,
    }
}

fn config() -> ToolConfig {
    ToolConfig {
        protocol: ProtocolSettings::default(),
        collect: CollectSettings::default(),
        dispatch: DispatchSettings::default(),
        ui: UiSettings::default(),
        collect_points: Vec::new(),
        dispatch_points: Vec::new(),
    }
}

fn computed() -> Computed {
    Computed { value: Some(number(1.0)), point: Some(sample(91.25)), middles: Vec::new() }
}

fn point_views(prefix: &str, count: usize) -> Vec<PointView> {
    (0..count)
        .map(|index| PointView {
            ioa: 10_000 + index as u32,
            name: format!("{prefix}{index:03}"),
            type_id: "M_ME_NC_1".to_owned(),
            kind_name: "短浮点遥测".to_owned(),
            value: Some(format!("{index}.000000")),
            quality: "GOOD".to_owned(),
            updated_ms: Some(index as u64),
            configured: true,
        })
        .collect()
}

fn snapshot_with_values(
    collect_values: Vec<PointView>,
    dispatch_current_general: Vec<PointView>,
    dispatch_current_energy: Vec<PointView>,
) -> AppSnapshot {
    AppSnapshot {
        collect_connection: ConnectionView::new(ConnectionPhase::Listening, "collect".to_owned()),
        dispatch_connection: ConnectionView::new(ConnectionPhase::Active, "dispatch".to_owned()),
        collect_values,
        dispatch_current_general,
        dispatch_current_energy,
        ..initial_snapshot(&config())
    }
}

fn wheel(kind: MouseKind, area: Area) -> MouseInput {
    MouseInput { kind, column: area.x.saturating_add(1), row: area.y.saturating_add(2) }
}

fn press(key: Key) -> KeyPress {
    KeyPress { key, control: false, shift: false }
}

fn entry(direction: Direction, category: LogCategory, summary: &str) -> LogEntry {
    LogEntry::at(
        0,
        Side::Collect,
        direction,
        Severity::Normal,
        category,
        summary.to_owned(),
    )
}

fn submitted(reaction: Reaction) -> Submission {
    match reaction {
        Reaction::Submit(submission) => submission,
        Reaction::Nothing => panic!("nothing was submitted"),
        Reaction::Quit => panic!("the program was ended"),
    }
}

#[test]
fn value_table_offsets_follow_scroll_direction_and_clamp_to_last_full_page() {
    let area = Area { x: 0, y: 0, width: 80, height: 10 };
    assert_eq!(point_table_visible_rows(area), 7);
    assert_eq!(scroll_point_offset(0, 10, area, true), 1);
    assert_eq!(scroll_point_offset(1, 10, area, false), 0);
    assert_eq!(scroll_point_offset(0, 10, area, false), 0);
    assert_eq!(scroll_point_offset(usize::MAX, 10, area, true), 3);
    assert_eq!(clamped_point_offset(usize::MAX, 10, area), 3);
    assert_eq!(scroll_point_offset(5, 3, area, true), 0);
}

#[test]
fn mouse_wheel_scrolls_collection_and_dispatch_panes_independently() {
    let config = config();
    let snapshot = snapshot_with_values(
        point_views("COL", 50),
        point_views("GEN", 50),
        point_views("ENE", 50),
    );
    let screen = Area { x: 0, y: 0, width: 120, height: 42 };
    let content = main_content_area(screen).expect("content");

    let mut app = UiState::new(&config);
    app.tab = 5;
    app.handle_mouse(wheel(MouseKind::ScrollDown, content), &snapshot, screen, &computed());
    assert_eq!(app.collect_value_offset, 1);

    app.tab = 6;
    let (general, energy) = dispatch_value_areas(content);
    app.handle_mouse(wheel(MouseKind::ScrollDown, general), &snapshot, screen, &computed());
    assert_eq!(app.dispatch_general_offset, 1);
    assert_eq!(app.dispatch_energy_offset, 0);

    app.handle_mouse(wheel(MouseKind::ScrollDown, energy), &snapshot, screen, &computed());
    assert_eq!(app.dispatch_general_offset, 1);
    assert_eq!(app.dispatch_energy_offset, 1);

    app.handle_mouse(wheel(MouseKind::ScrollUp, general), &snapshot, screen, &computed());
    assert_eq!(app.dispatch_general_offset, 0);
    assert_eq!(app.dispatch_energy_offset, 1);
}

#[test]
fn collection_render_and_click_use_the_same_scrolled_offset() {
    let config = config();
    let snapshot = snapshot_with_values(point_views("ROW", 50), Vec::new(), Vec::new());
    let screen = Area { x: 0, y: 0, width: 80, height: 24 };
    let content = main_content_area(screen).expect("content");
    let mut app = UiState::new(&config);
    app.tab = 5;
    app.collect_value_offset = 10;

    let first =
        clamped_point_offset(app.collect_value_offset, snapshot.collect_values.len(), content);
    let shown: Vec<String> = snapshot.collect_values[first..]
        .iter()
        .take(point_table_visible_rows(content))
        .map(|point| point_cells(point, String::new())[1].clone())
        .collect();
    assert!(shown.contains(&"ROW010".to_owned()), "scrolled row missing: {shown:?}");
    assert!(
        !shown.contains(&"ROW000".to_owned()),
        "row before offset remained visible: {shown:?}"
    );

    let click = MouseInput {
        kind: MouseKind::LeftDown,
        column: content.x.saturating_add(1),
        row: content.y.saturating_add(2),
    };
    app.handle_mouse(click, &snapshot, screen, &computed());
    let popup = app.collect_value_popup.as_ref().expect("value popup");
    assert_eq!(popup.ioa, snapshot.collect_values[10].ioa);
    assert_eq!(popup.name, "ROW010");
}

#[test]
fn dispatch_form_rejects_qualifiers_that_would_be_truncated_on_the_wire() {
    let config = config();
    let mut form = DispatchForm::new(&config);
    let value = Some(number(1.0));
    form.qualifier = "32".to_owned();
    assert!(form.request(DispatchAction::SingleControl, value).is_err());
    form.qualifier = "128".to_owned();
    assert!(form.request(DispatchAction::FloatSetpoint, value).is_err());
    form.qualifier = "0".to_owned();
    form.qoi = "19".to_owned();
    assert!(form.request(DispatchAction::GeneralInterrogation, value).is_err());
    form.qoi = "20".to_owned();
    form.qcc_request = "0".to_owned();
    assert!(form.request(DispatchAction::CounterInterrogation, value).is_err());
    form.qcc_request = "5".to_owned();
    form.qcc_freeze = "4".to_owned();
    assert!(form.request(DispatchAction::CounterInterrogation, value).is_err());
}

#[test]
fn all_tab_titles_fit_at_the_minimum_supported_width() {
    let screen = Area { x: 0, y: 0, width: 80, height: 24 };
    let areas = screen_areas(screen);
    let row = areas.tabs.y + 1;
    let mut seen: Vec<usize> =
        (0..79).filter_map(|column| tab_at(areas.tabs, column, row)).collect();
    seen.dedup();
    assert_eq!(seen, (0..TAB_COUNT).collect::<Vec<_>>());
    assert_eq!(tab_title(6), "7 调度值");
    assert_eq!(tab_at(areas.tabs, 2, row + 1), None);
    assert_eq!(tab_at(areas.tabs, 0, row), None);
}

#[test]
fn too_small_terminal_renders_a_size_message_without_panicking() {
    let screen = Area { x: 0, y: 0, width: 60, height: 12 };
    assert!(main_content_area(screen).is_none());
    assert_eq!(
        small_screen_label(screen),
        "终端尺寸过小：当前 60×12，至少需要 80×24"
    );
    let mut app = UiState::new(&config());
    let snapshot = initial_snapshot(&config());
    let click = MouseInput { kind: MouseKind::LeftDown, column: 3, row: 1 };
    assert!(matches!(
        app.handle_mouse(click, &snapshot, screen, &computed()),
        Reaction::Nothing
    ));
    assert_eq!(app.tab, 0);
}

#[test]
fn areas_are_parts_of_the_screen() {
    let screen = Area { x: 0, y: 0, width: 120, height: 42 };
    let areas = screen_areas(screen);
    assert_eq!(areas.tabs, Area { x: 0, y: 0, width: 120, height: 3 });
    assert_eq!(areas.content, Area { x: 0, y: 3, width: 120, height: 37 });
    assert_eq!(areas.footer, Area { x: 0, y: 40, width: 120, height: 2 });
    let (controls, incoming, outgoing) = log_areas(areas.content);
    assert_eq!(controls.height, 3);
    assert_eq!(incoming.width + outgoing.width, 120);
    let middle = centered_rect(screen, 50, 50);
    assert!(rect_contains(screen, middle.x, middle.y));
    assert!(!rect_contains(middle, 0, 0));
    assert!(!rect_contains(middle, middle.x + middle.width, middle.y));
}

fn rows(area: Area, from: u16, to: u16) -> Area {
    Area { y: from, height: to - from, ..area }
}

fn columns(area: Area, from: u16, to: u16) -> Area {
    Area { x: from, width: to - from, ..area }
}

fn share(extent: u16, percent: u32) -> u16 {
    ((u32::from(extent) * percent + 50) / 100) as u16
}

fn centered(area: Area, percent_x: u32, percent_y: u32) -> Area {
    let above = (100 - percent_y) / 2;
    let row = rows(
        area,
        area.y + share(area.height, above),
        area.y + share(area.height, above + percent_y),
    );
    let beside = (100 - percent_x) / 2;
    columns(
        row,
        area.x + share(area.width, beside),
        area.x + share(area.width, beside + percent_x),
    )
}

#[test]
fn screens_of_every_size_are_laid_out_alike() {
    for height in 24..=70 {
        let screen = Area { x: 3, y: 2, width: 80 + height * 2, height };
        let areas = screen_areas(screen);
        let bottom = 2 + height;
        assert_eq!(areas.tabs, rows(screen, 2, 5));
        assert_eq!(areas.content, rows(screen, 5, bottom - 2));
        assert_eq!(areas.footer, rows(screen, bottom - 2, bottom));
        let cut = 5 + share(height - 5, 62);
        assert_eq!(areas.general, rows(screen, 5, cut));
        assert_eq!(areas.energy, rows(screen, cut, bottom - 2));
        assert_eq!(areas.controls, rows(screen, 5, 8));
        let panes = rows(screen, 8, bottom - 2);
        let half = 3 + share(screen.width, 50);
        assert_eq!(areas.incoming, columns(panes, 3, half));
        assert_eq!(areas.outgoing, columns(panes, half, 3 + screen.width));
        assert_eq!(areas.detail, centered(screen, 82, 76));
        assert_eq!(areas.fault, centered(screen, 62, 58));
        assert_eq!(areas.form, centered(screen, 78, 82));
        let end = areas.form.y + areas.form.height;
        assert_eq!(areas.form_fields, rows(areas.form, areas.form.y, end - 4));
        assert_eq!(areas.form_error, rows(areas.form, end - 4, end - 2));
        assert_eq!(areas.form_buttons, rows(areas.form, end - 2, end));
        assert_eq!(areas.value, centered(screen, 64, 42));
        let end = areas.value.y + areas.value.height;
        assert_eq!(areas.value_fields, rows(areas.value, areas.value.y, end - 4));
        assert_eq!(areas.value_buttons, rows(areas.value, end - 2, end));
    }
}

#[test]
fn middles_of_small_areas_are_rounded_to_cells() {
    for extent in 0..=60 {
        let area = Area { x: 1, y: 4, width: extent, height: extent };
        assert_eq!(centered_rect(area, 80, 30), centered(area, 80, 30));
        assert_eq!(centered_rect(area, 82, 76), centered(area, 82, 76));
        let (upper, lower) = dispatch_value_areas(area);
        let cut = 4 + share(extent, 62);
        assert_eq!((upper, lower), (rows(area, 4, cut), rows(area, cut, 4 + extent)));
        let (left, right, below) = status_areas(area);
        let cut = 4 + share(extent, 58);
        let half = 1 + share(extent, 50);
        let above = rows(area, 4, cut);
        assert_eq!(left, columns(above, 1, half));
        assert_eq!(right, columns(above, half, 1 + extent));
        assert_eq!(below, rows(area, cut, 4 + extent));
        let (fields, error, buttons) = popup_parts(area, 5);
        for part in [fields, error, buttons] {
            assert!(part.y >= 4 && part.y + part.height <= 4 + extent);
        }
        if extent >= 9 {
            assert_eq!(buttons, rows(area, 2 + extent, 4 + extent));
        }
    }
    let large = Area { x: 65_000, y: 65_000, width: 535, height: 535 };
    assert_eq!(centered_rect(large, 62, 58), centered(large, 62, 58));
}

#[test]
fn tabs_stand_next_to_each_other() {
    let area = Area { x: 4, y: 2, width: 80, height: 3 };
    let widths = vec![3, 2];
    let hit: Vec<Option<usize>> =
        (4..12).map(|column| tab_among(&widths, area, column, 3)).collect();
    assert_eq!(
        hit,
        vec![None, Some(0), Some(0), Some(0), None, Some(1), Some(1), None]
    );
    assert_eq!(tab_among(&widths, area, 5, 4), None);
}

#[test]
fn keys_switch_tabs_and_end_the_program() {
    let snapshot = initial_snapshot(&config());
    let mut app = UiState::new(&config());
    app.handle_key(press(Key::Left), &snapshot, &computed());
    assert_eq!(app.tab, 6);
    app.handle_key(press(Key::Right), &snapshot, &computed());
    assert_eq!(app.tab, 0);
    app.log_offset = 5;
    app.handle_key(press(Key::Char('3')), &snapshot, &computed());
    assert_eq!((app.tab, app.log_offset), (2, 0));
    assert!(matches!(
        app.handle_key(press(Key::Char('q')), &snapshot, &computed()),
        Reaction::Quit
    ));
    app.fault_popup = Some(0);
    let interrupt = KeyPress { key: Key::Char('c'), control: true, shift: false };
    assert!(matches!(app.handle_key(interrupt, &snapshot, &computed()), Reaction::Quit));
    app.fault_popup = None;
    let reload = submitted(app.handle_key(press(Key::Char('r')), &snapshot, &computed()));
    assert!(matches!(reload.command, RuntimeCommand::ReloadConfig));
    assert_eq!(reload.success, "已请求重新加载配置");
}

#[test]
fn responses_are_chosen_from_a_ring_without_wrapping() {
    let snapshot = initial_snapshot(&config());
    let mut app = UiState::new(&config());
    app.handle_key(press(Key::Char('f')), &snapshot, &computed());
    assert_eq!(app.fault_popup, Some(0));
    app.handle_key(press(Key::Up), &snapshot, &computed());
    assert_eq!(app.fault_popup, Some(0));
    for _ in 0..9 {
        app.handle_key(press(Key::Down), &snapshot, &computed());
    }
    assert_eq!(app.fault_popup, Some(7));
    let chosen = submitted(app.handle_key(press(Key::Enter), &snapshot, &computed()));
    assert!(matches!(
        chosen.command,
        RuntimeCommand::SetFaultPolicy(Some(FaultPolicy::Disconnect))
    ));
    assert_eq!(app.fault_popup, None);
    app.fault_popup = Some(0);
    let chosen = submitted(app.handle_key(press(Key::Enter), &snapshot, &computed()));
    assert!(matches!(chosen.command, RuntimeCommand::SetFaultPolicy(None)));
    app.conclude(chosen.success, chosen.closes, Some("full".to_owned()));
    assert_eq!(app.last_action, "命令队列拒绝请求: full");
}

#[test]
fn logs_are_scrolled_filtered_and_cleared() {
    let mut snapshot = initial_snapshot(&config());
    for (category, summary) in [
        (LogCategory::Protocol, "a"),
        (LogCategory::Control, "b"),
        (LogCategory::CommandDivider, "c"),
        (LogCategory::Protocol, "d"),
    ] {
        snapshot.collect_logs.push_back(entry(Direction::Incoming, category, summary));
    }
    let mut app = UiState::new(&config());
    app.tab = 1;
    app.handle_key(press(Key::Enter), &snapshot, &computed());
    assert_eq!(app.detail.as_ref().expect("detail").summary, "d");
    app.handle_key(press(Key::Char('x')), &snapshot, &computed());
    assert!(app.detail.is_some());
    app.handle_key(press(Key::Esc), &snapshot, &computed());
    assert!(app.detail.is_none());
    app.handle_key(press(Key::Char('p')), &snapshot, &computed());
    app.handle_key(press(Key::Char('p')), &snapshot, &computed());
    assert_eq!(app.log_filter, LogFilter::Control);
    app.handle_key(press(Key::PageUp), &snapshot, &computed());
    app.handle_key(press(Key::Enter), &snapshot, &computed());
    assert_eq!(app.detail.as_ref().expect("detail").summary, "b");
    app.detail = None;
    app.handle_key(press(Key::Home), &snapshot, &computed());
    assert_eq!(app.log_offset, 1);
    app.handle_key(press(Key::Enter), &snapshot, &computed());
    assert_eq!(app.detail.as_ref().expect("detail").summary, "b");
    app.detail = None;
    app.handle_key(press(Key::Down), &snapshot, &computed());
    assert_eq!(app.log_offset, 0);
    let clear = submitted(app.handle_key(press(Key::Char('c')), &snapshot, &computed()));
    assert!(matches!(clear.command, RuntimeCommand::ClearLogs(Side::Collect)));
    assert_eq!(clear.success, "采集侧日志已清屏");
    assert_eq!(app.log_offset, 0);
}

#[test]
fn windows_show_the_latest_entries_that_fit() {
    let mut logs: VecDeque<LogEntry> = VecDeque::new();
    for index in 0..6 {
        logs.push_back(entry(Direction::Outgoing, LogCategory::Protocol, &format!("{index}")));
    }
    logs.push_back(entry(Direction::Incoming, LogCategory::Protocol, "in"));
    let area = Area { x: 0, y: 0, width: 40, height: 5 };
    let names = |entries: Vec<LogEntry>| {
        entries.into_iter().map(|entry| entry.summary).collect::<Vec<_>>().join("")
    };
    let window = |direction, filter, offset| {
        names(log_window(&logs, direction, filter, offset, area))
    };
    assert_eq!(window(Direction::Outgoing, LogFilter::All, 0), "345");
    assert_eq!(window(Direction::Outgoing, LogFilter::All, 2), "123");
    assert_eq!(window(Direction::Outgoing, LogFilter::All, 99), "0");
    assert_eq!(window(Direction::Incoming, LogFilter::All, 0), "in");
    assert_eq!(window(Direction::Outgoing, LogFilter::Control, 0), "");
    assert!(find_entry(&logs, LogFilter::All, 7).is_none());
    assert_eq!(find_entry(&logs, LogFilter::All, 1).expect("entry").summary, "5");
    assert_eq!(LogFilter::Connection.next(), LogFilter::All);
    assert_eq!(LogFilter::Interrogation.label(), "召唤");
    assert!(LogFilter::Control.matches(LogCategory::CommandDivider));
    assert!(LogFilter::Protocol.matches(LogCategory::KeepAlive));
    assert!(!LogFilter::Connection.matches(LogCategory::Configuration));
}

#[test]
fn clicks_in_the_log_open_entries_and_buttons() {
    let mut snapshot = initial_snapshot(&config());
    snapshot.collect_logs.push_back(entry(Direction::Incoming, LogCategory::Protocol, "in"));
    snapshot.collect_logs.push_back(entry(Direction::Internal, LogCategory::Protocol, "out"));
    let screen = Area { x: 0, y: 0, width: 120, height: 42 };
    let areas = screen_areas(screen);
    let mut app = UiState::new(&config());
    app.tab = 1;
    let at = |column, row| MouseInput { kind: MouseKind::LeftDown, column, row };
    app.handle_mouse(
        at(areas.outgoing.x + 1, areas.outgoing.y + 1),
        &snapshot,
        screen,
        &computed(),
    );
    assert_eq!(app.detail.as_ref().expect("detail").summary, "out");
    app.handle_mouse(at(0, 0), &snapshot, screen, &computed());
    assert!(app.detail.is_none());
    app.handle_mouse(
        at(areas.incoming.x + 1, areas.incoming.y + 2),
        &snapshot,
        screen,
        &computed(),
    );
    assert!(app.detail.is_none());
    let row = areas.controls.y + 1;
    app.handle_mouse(at(areas.controls.x + 13, row), &snapshot, screen, &computed());
    assert_eq!(app.log_filter, LogFilter::Protocol);
    let clear = app.handle_mouse(at(areas.controls.x + 1, row), &snapshot, screen, &computed());
    assert!(matches!(submitted(clear).command, RuntimeCommand::ClearLogs(Side::Collect)));
    app.handle_mouse(wheel(MouseKind::ScrollUp, areas.content), &snapshot, screen, &computed());
    assert_eq!(app.log_offset, 1);
}

#[test]
fn commands_are_chosen_by_key_and_click() {
    let mut snapshot = initial_snapshot(&config());
    snapshot.dispatch_points = vec![hint(DispatchPointKind::FloatSetpoint, 77)];
    let screen = Area { x: 0, y: 0, width: 120, height: 42 };
    let content = main_content_area(screen).expect("content");
    let mut app = UiState::new(&config());
    app.tab = 3;
    app.handle_key(press(Key::Down), &snapshot, &computed());
    let upload = submitted(app.handle_key(press(Key::Enter), &snapshot, &computed()));
    assert!(matches!(upload.command, RuntimeCommand::CollectUpload(UploadKind::RefreshAll)));
    assert_eq!(upload.success, "已提交：全部点变化并主动上送；结果请看采集日志");
    app.tab = 4;
    let start = submitted(app.handle_key(press(Key::Enter), &snapshot, &computed()));
    match start.command {
        RuntimeCommand::Dispatch(request) => {
            assert_eq!(request.action, DispatchAction::StartDt);
            assert_eq!(request.common_address, 1);
        },
        _ => panic!("expected a command"),
    }
    app.handle_key(press(Key::Char('j')), &snapshot, &computed());
    assert_eq!(app.selected_action(), DispatchAction::StopDt);
    app.handle_key(press(Key::Char('k')), &snapshot, &computed());
    let click = MouseInput {
        kind: MouseKind::LeftDown,
        column: content.x + 1,
        row: content.y + 1 + 12,
    };
    app.handle_mouse(click, &snapshot, screen, &computed());
    assert_eq!(app.dispatch_selection, 12);
    let popup = app.dispatch_popup.as_ref().expect("form");
    assert_eq!(popup.action, DispatchAction::FloatSetpoint);
    assert_eq!(app.form.ioa, "77");
}

#[test]
fn forms_are_filled_in_and_given() {
    let snapshot = initial_snapshot(&config());
    let mut app = UiState::new(&config());
    app.dispatch_popup = Some(DispatchPopup::new(DispatchAction::SingleControl));
    app.handle_key(press(Key::Backspace), &snapshot, &computed());
    app.handle_key(press(Key::Char('9')), &snapshot, &computed());
    app.handle_key(press(Key::Char('x')), &snapshot, &computed());
    assert_eq!(app.form.ioa, "209");
    app.handle_key(press(Key::Char('s')), &snapshot, &computed());
    app.handle_key(press(Key::Char('t')), &snapshot, &computed());
    assert_eq!((app.form.phase, app.form.test), (ControlPhase::Select, true));
    app.handle_key(press(Key::BackTab), &snapshot, &computed());
    assert_eq!(app.dispatch_popup.as_ref().expect("form").field, 8);
    let forward = KeyPress { key: Key::Tab, control: false, shift: false };
    app.handle_key(forward, &snapshot, &computed());
    app.handle_key(forward, &snapshot, &computed());
    assert_eq!(
        app.dispatch_popup.as_ref().expect("form").current_field(),
        Some(FormField::Value)
    );
    let no_number = Computed { value: None, point: None, middles: Vec::new() };
    app.form.value = "1.2.3".to_owned();
    assert!(matches!(
        app.handle_key(press(Key::Enter), &snapshot, &no_number),
        Reaction::Nothing
    ));
    assert_eq!(
        app.dispatch_popup.as_ref().expect("form").error,
        "值格式不正确: \"1.2.3\""
    );
    let given = submitted(app.handle_key(press(Key::Enter), &snapshot, &computed()));
    assert_eq!(given.closes, Closes::Form);
    app.conclude(given.success, given.closes, None);
    assert!(app.dispatch_popup.is_none());
    assert_eq!(app.last_action, "已提交：单点遥控 C_SC_NA_1；结果请看调度日志");
}

#[test]
fn clicks_choose_fields_and_buttons_of_the_form() {
    let snapshot = initial_snapshot(&config());
    let screen = Area { x: 0, y: 0, width: 120, height: 42 };
    let areas = screen_areas(screen);
    let mut app = UiState::new(&config());
    app.dispatch_popup = Some(DispatchPopup::new(DispatchAction::SingleControl));
    let at = |column, row| MouseInput { kind: MouseKind::LeftDown, column, row };
    let fields = areas.form_fields;
    app.handle_mouse(at(fields.x + 1, fields.y + 2 + 2), &snapshot, screen, &computed());
    assert_eq!(app.dispatch_popup.as_ref().expect("form").field, 2);
    assert_eq!(app.form.phase, ControlPhase::Select);
    let buttons = areas.form_buttons;
    let given = app.handle_mouse(at(buttons.x, buttons.y), &snapshot, screen, &computed());
    assert!(matches!(submitted(given).command, RuntimeCommand::Dispatch(_)));
    let right = buttons.x + buttons.width - 1;
    app.handle_mouse(at(right, buttons.y), &snapshot, screen, &computed());
    assert!(app.dispatch_popup.is_none());
    app.dispatch_popup = Some(DispatchPopup::new(DispatchAction::Read));
    app.handle_mouse(at(0, 0), &snapshot, screen, &computed());
    assert!(app.dispatch_popup.is_none());
    app.fault_popup = Some(3);
    let chosen = app.handle_mouse(
        at(areas.fault.x + 1, areas.fault.y + 2),
        &snapshot,
        screen,
        &computed(),
    );
    assert!(matches!(
        submitted(chosen).command,
        RuntimeCommand::SetFaultPolicy(Some(FaultPolicy::Success))
    ));
}

#[test]
fn values_are_edited_and_given() {
    let snapshot = initial_snapshot(&config());
    let mut app = UiState::new(&config());
    let mut point = point_views("P", 1).pop().expect("point");
    point.value = Some("1 / 合".to_owned());
    app.collect_value_popup = Some(CollectValuePopup::new(&point));
    assert_eq!(app.collect_value_popup.as_ref().expect("popup").value, "1");
    app.handle_key(press(Key::Char('.')), &snapshot, &computed());
    app.handle_key(press(Key::Char('a')), &snapshot, &computed());
    assert_eq!(app.collect_value_popup.as_ref().expect("popup").value, "1.");
    app.handle_key(press(Key::Backspace), &snapshot, &computed());
    let no_number = Computed { value: None, point: None, middles: Vec::new() };
    app.handle_key(press(Key::Enter), &snapshot, &no_number);
    assert_eq!(
        app.collect_value_popup.as_ref().expect("popup").error,
        "采集点值格式不正确: \"1\""
    );
    let infinite = Computed {
        value: None,
        point: Some(sample(f64::INFINITY)),
        middles: Vec::new(),
    };
    app.handle_key(press(Key::Enter), &snapshot, &infinite);
    assert_eq!(
        app.collect_value_popup.as_ref().expect("popup").error,
        "采集点值必须是有限数字"
    );
    let given = submitted(app.handle_key(press(Key::Enter), &snapshot, &computed()));
    assert_eq!(given.success, "已提交采集点修改：M_ME_NC_1/IOA=10000，值=91.25");
    match given.command {
        RuntimeCommand::SetCollectValue { ioa, type_id, value } => {
            assert_eq!((ioa, type_id.as_str()), (10_000, "M_ME_NC_1"));
            assert_eq!(value.plain, "91.25");
        },
        _ => panic!("expected a value"),
    }
    app.conclude(given.success, given.closes, Some("full".to_owned()));
    assert!(app.collect_value_popup.is_some());
    app.handle_key(press(Key::Esc), &snapshot, &computed());
    assert!(app.collect_value_popup.is_none());
}

#[test]
fn every_field_of_the_form_is_read() {
    let config = config();
    let value = Some(number(1.0));
    let mut form = DispatchForm::new(&config);
    form.clock = " NOW ".to_owned();
    let request = form.request(DispatchAction::ClockSync, None).expect("clock");
    assert_eq!(request.clock_time_ms, None);
    form.clock = "1767225600123".to_owned();
    let request = form.request(DispatchAction::ClockSync, None).expect("clock");
    assert_eq!(request.clock_time_ms, Some(1_767_225_600_123));
    form.clock = "soon".to_owned();
    assert_eq!(
        form.request(DispatchAction::ClockSync, None).unwrap_err(),
        "校时时间（Unix ms 或 now）格式不正确: \"soon\""
    );
    form.ioa = "16777216".to_owned();
    assert_eq!(
        form.request(DispatchAction::Read, None).unwrap_err(),
        "IOA 超出三字节范围"
    );
    form.ioa = " 7 ".to_owned();
    assert_eq!(form.request(DispatchAction::Read, None).expect("read").ioa, 7);
    form.common_address = "0".to_owned();
    assert_eq!(
        form.request(DispatchAction::Read, None).unwrap_err(),
        "CA 不能为 0；允许具体站地址或 65535 广播"
    );
    assert!(form.request(DispatchAction::StartDt, None).is_ok());
    form.common_address = "65535".to_owned();
    form.repeat = "0".to_owned();
    assert_eq!(
        form.request(DispatchAction::Read, None).unwrap_err(),
        "重复次数必须在 1..=1000"
    );
    assert!(form.request(DispatchAction::TestFr, None).is_ok());
    form.repeat = "1000".to_owned();
    assert_eq!(form.request(DispatchAction::Read, None).expect("read").repeat, 1_000);
    form.repeat = "1001".to_owned();
    assert_eq!(
        form.request(DispatchAction::Read, None).unwrap_err(),
        "重复次数不能大于 1000"
    );
    form.repeat = "1".to_owned();
    form.originator_address = "256".to_owned();
    assert_eq!(
        form.request(DispatchAction::Read, None).unwrap_err(),
        "OA格式不正确: \"256\""
    );
    form.originator_address = "255".to_owned();
    form.interval = "-1".to_owned();
    assert!(form.request(DispatchAction::Read, None).is_err());
    form.interval = "5".to_owned();
    form.qualifier = "32".to_owned();
    assert_eq!(
        form.request(DispatchAction::SingleControl, value).unwrap_err(),
        "单点遥控 C_SC_NA_1 限定词必须在 0..=31"
    );
    form.qualifier = "127".to_owned();
    assert_eq!(
        form.request(DispatchAction::ScaledSetpoint, value).expect("set point").qualifier,
        127
    );
}

#[test]
fn hints_fill_the_form() {
    let config = config();
    let mut form = DispatchForm::new(&config);
    let mut both = hint(DispatchPointKind::FloatSetpoint, 9);
    both.min = Some(sample(-10.0));
    both.max = Some(sample(15.0));
    let mut points = vec![hint(DispatchPointKind::SingleControl, 8), both];
    let middles = vec![String::new(), format!("{}", (-10.0 + 15.0) / 2.0)];
    form.value = "0".to_owned();
    form.apply_hint(DispatchAction::SingleControl, &points, &middles);
    assert_eq!((form.ioa.as_str(), form.value.as_str()), ("8", "1"));
    form.apply_hint(DispatchAction::FloatSetpoint, &points, &middles);
    assert_eq!((form.ioa.as_str(), form.value.as_str()), ("9", "2.5"));
    points[1].default_value = Some(sample(3.0));
    form.apply_hint(DispatchAction::FloatSetpoint, &points, &middles);
    assert_eq!(form.value, "3");
    form.apply_hint(DispatchAction::DoubleControl, &points, &middles);
    assert_eq!(form.ioa, "9");
    assert!(valid_form_character('n', FormField::Clock));
    assert!(!valid_form_character('n', FormField::Ioa));
    assert!(valid_form_character('-', FormField::Value));
    assert!(!valid_form_character('-', FormField::Repeat));
    assert_eq!(action_fields(DispatchAction::Read)[0], FormField::Ioa);
    assert!(action_fields(DispatchAction::TestFr).is_empty());
}

#[test]
fn entries_are_shown_in_columns() {
    let line = entry(Direction::Incoming, LogCategory::Protocol, "U帧");
    assert_eq!(log_line("12:00:00.000", &line), "12:00:00.000 采集侧 接收 报文   U帧");
    assert!(log_text(&line).ends_with(" 采集侧 接收 报文   U帧"));
    assert_eq!(category_label(LogCategory::KeepAlive), "保活");
    assert_eq!(log_shade(&line), Shade::Incoming);
    let report = entry(Direction::Outgoing, LogCategory::ActiveUpload, "x");
    assert_eq!(log_shade(&report), Shade::Report);
    let mark = entry(Direction::Internal, LogCategory::CommandDivider, "x");
    assert_eq!(log_shade(&mark), Shade::Selected);
    let time = LocalTime {
        year: 2026,
        month: 1,
        day: 1,
        hour: 7,
        minute: 5,
        second: 9,
        subsec_millis: 42,
        weekday: 4,
    };
    assert_eq!(clock_label(time), "07:05:09.042");
    assert_eq!(format_time(u64::MAX), "时间超界");
    assert_eq!(format_optional_time(None), "—");
    let shown = format_time(1_767_225_600_123);
    assert!(shown.ends_with(":00.123"), "{shown}");
    assert_eq!(log_detail(&line), vec![String::new()]);
}

#[test]
fn pages_show_what_is_under_way() {
    let mut snapshot = initial_snapshot(&config());
    let app = UiState::new(&config());
    snapshot.general_pending = true;
    snapshot.application_pending = 2;
    for index in 0..6 {
        snapshot
            .system_logs
            .push_back(entry(Direction::Internal, LogCategory::Connection, &format!("{index}")));
    }
    let lines = status_text(&app, &snapshot);
    assert_eq!(lines[0][1].text, "等待 ACTTERM");
    assert_eq!(lines[0][1].shade, Shade::Warning);
    assert_eq!(lines[0][4].text, "空闲");
    assert_eq!(lines[0][7].text, "2");
    assert_eq!(lines[1][1].text, "无（使用点位默认策略）");
    assert_eq!(lines[2][1].text, "T1=15000ms  T2=10000ms  T3=20000ms  K=12  W=8");
    assert_eq!(lines[3][1].text, "队列容量：命令=256  事件=4096  日志环=2000");
    let recent: Vec<String> =
        recent_system_events(&snapshot).into_iter().map(|entry| entry.summary).collect();
    assert_eq!(recent, vec!["2", "3", "4", "5"]);
    let lines = connection_text(&snapshot.collect_connection, "—", "12:00");
    assert_eq!(lines[0][1].shade, Shade::Badge);
    assert_eq!(lines[2][1].text, "—");
    assert_eq!(lines[3][1].text, "—");
    assert_eq!(lines[5][1].text, "12:00");
}

#[test]
fn menus_mark_what_is_chosen() {
    let uploads = collect_commands(1);
    assert_eq!(uploads.len(), 11);
    assert_eq!(uploads[0].text, "  1. 主动上送全部当前值（不改变数据）");
    assert_eq!(uploads[10].text, " 11. 初始化结束主动上送");
    assert_eq!(uploads[1].shade, Shade::Selected);
    let actions = dispatch_commands(0);
    assert_eq!(actions[12].text, " 13. 短浮点遥调 C_SE_NC_1");
    let choices = fault_choices(2, Some(FaultPolicy::Success));
    assert_eq!(choices[0].text, " ○ 清除等待策略 / 使用点位默认");
    assert_eq!(choices[1].text, " ● 下一条控制：强制正常成功");
    assert_eq!(choices[2].shade, Shade::Selected);
    let form = DispatchForm::new(&config());
    let rows = form_rows(&DispatchPopup::new(DispatchAction::Read), &form);
    assert_eq!(rows[0][0].text, "IOA");
    assert_eq!(rows[0][1].text, "201");
    assert_eq!(rows[5][1].text, "0 / 关");
    let popup = CollectValuePopup::new(&point_views("P", 1)[0]);
    assert_eq!(value_text(&popup)[0][0].text, "IOA=10000  名称=P000  类型=短浮点遥测");
}

#[test]
fn pages_keep_where_their_tables_were_scrolled_to() {
    let snapshot = snapshot_with_values(
        point_views("COL", 50),
        point_views("GEN", 50),
        point_views("ENE", 50),
    );
    let screen = Area { x: 0, y: 0, width: 120, height: 42 };
    let mut app = UiState::new(&config());
    app.collect_value_offset = 4;
    app.dispatch_general_offset = 5;
    app.dispatch_energy_offset = 6;
    for key in [Key::Right, Key::Char('6'), Key::Down, Key::Char('2'), Key::Left] {
        app.handle_key(press(key), &snapshot, &computed());
    }
    let row = screen_areas(screen).tabs.y + 1;
    let click = MouseInput { kind: MouseKind::LeftDown, column: 2, row };
    app.handle_mouse(click, &snapshot, screen, &computed());
    assert_eq!(
        (app.collect_value_offset, app.dispatch_general_offset, app.dispatch_energy_offset),
        (4, 5, 6)
    );
}

#[test]
fn the_form_can_be_sent_as_it_is_first_shown() {
    let mut config = config();
    config.dispatch.common_address = 12;
    config.protocol.originator_address = 9;
    let form = DispatchForm::new(&config);
    for action in DispatchAction::ALL {
        let request = form.request(action, Some(number(1.0))).expect("request");
        assert_eq!(request.repeat, 1);
        if action != DispatchAction::StartDt
            && action != DispatchAction::StopDt
            && action != DispatchAction::TestFr
        {
            assert_eq!((request.common_address, request.originator_address), (12, 9));
        }
    }
}

#[test]
fn hinted_commands_go_to_the_point_that_suggests_them() {
    let points = vec![
        hint(DispatchPointKind::DoubleControl, 8),
        hint(DispatchPointKind::ScaledSetpoint, 16_777_215),
    ];
    let mut form = DispatchForm::new(&config());
    form.apply_hint(DispatchAction::ScaledSetpoint, &points, &Vec::new());
    let request = form.request(DispatchAction::ScaledSetpoint, Some(number(3.0)));
    assert_eq!(request.expect("request").ioa, 16_777_215);
}
