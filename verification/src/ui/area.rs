//! Areas of the screen, in character cells.

use ratatui::layout::{Constraint, Direction as LayoutDirection, Layout, Rect};
use ratatui::text::Span;
use vstd::prelude::*;

verus! {

/// A rectangle of character cells.
#[derive(Debug, Clone, Copy, PartialEq, Eq, Structural)]
pub struct Area {
    pub x: u16,
    pub y: u16,
    pub width: u16,
    pub height: u16,
}

/// The smallest screen that is drawn.
pub const MIN_WIDTH: u16 = 80;

pub const MIN_HEIGHT: u16 = 24;

pub open spec fn cells_after(start: u16, count: u16) -> u16 {
    if start + count <= u16::MAX {
        (start + count) as u16
    } else {
        u16::MAX
    }
}

pub open spec fn cells_before(end: u16, count: u16) -> u16 {
    if end >= count {
        (end - count) as u16
    } else {
        0
    }
}

impl Area {
    pub open spec fn right(self) -> u16 {
        cells_after(self.x, self.width)
    }

    pub open spec fn bottom(self) -> u16 {
        cells_after(self.y, self.height)
    }

    pub open spec fn contains(self, column: u16, row: u16) -> bool {
        self.x <= column < self.right() && self.y <= row < self.bottom()
    }

    /// The screen is large enough to be drawn on.
    pub open spec fn sufficient(self) -> bool {
        self.width >= MIN_WIDTH && self.height >= MIN_HEIGHT
    }

    /// The area ends where cells can still be counted.
    pub open spec fn fits(self) -> bool {
        self.x + self.width <= u16::MAX && self.y + self.height <= u16::MAX
    }

    pub fn is_sufficient(self) -> (result: bool)
        ensures
            result == self.sufficient(),
    {
        self.width >= MIN_WIDTH && self.height >= MIN_HEIGHT
    }
}

pub fn rect_contains(area: Area, column: u16, row: u16) -> (result: bool)
    ensures
        result == area.contains(column, row),
{
    column >= area.x && column < area.x.saturating_add(area.width) && row >= area.y && row
        < area.y.saturating_add(area.height)
}

// ---------------------------------------------------------------------------
// Splitting areas.
/// The direction in which an area is split.
#[derive(Debug, Clone, Copy, PartialEq, Eq, Structural)]
pub enum Axis {
    Vertical,
    Horizontal,
}

/// How much of an area a part of it gets.
#[derive(Debug, Clone, Copy, PartialEq, Eq, Structural)]
pub enum Share {
    Length(u16),
    Min(u16),
    Percentage(u16),
}

pub open spec fn begin_of(area: Area, axis: Axis) -> int {
    match axis {
        Axis::Vertical => area.y as int,
        Axis::Horizontal => area.x as int,
    }
}

pub open spec fn end_of(area: Area, axis: Axis) -> int {
    match axis {
        Axis::Vertical => area.bottom() as int,
        Axis::Horizontal => area.right() as int,
    }
}

/// The part of an area between two edges, with the full extent of the area
/// across the direction in which it was split.
pub open spec fn slice(area: Area, axis: Axis, from: int, to: int) -> Area {
    match axis {
        Axis::Vertical => Area { y: from as u16, height: (to - from) as u16, ..area },
        Axis::Horizontal => Area { x: from as u16, width: (to - from) as u16, ..area },
    }
}

/// The area is cut off by two edges within another.
pub open spec fn sliced_from(part: Area, area: Area, axis: Axis) -> bool {
    exists|from: int, to: int|
        begin_of(area, axis) <= from <= to <= end_of(area, axis) && part == #[trigger] slice(
            area,
            axis,
            from,
            to,
        )
}

/// The percentages in front of a part.
pub open spec fn percent_before(shares: Seq<Share>, index: int) -> int
    decreases index,
{
    if index <= 0 {
        0
    } else {
        percent_before(shares, index - 1) + match shares[index - 1] {
            Share::Percentage(percent) => percent as int,
            _ => 0,
        }
    }
}

/// The lengths in front of a part.
pub open spec fn length_before(shares: Seq<Share>, index: int) -> int
    decreases index,
{
    if index <= 0 {
        0
    } else {
        length_before(shares, index - 1) + match shares[index - 1] {
            Share::Length(length) => length as int,
            _ => 0,
        }
    }
}

/// The shares are percentages that make up the whole.
pub open spec fn whole_percentages(shares: Seq<Share>) -> bool {
    &&& forall|i: int| 0 <= i < shares.len() ==> (#[trigger] shares[i]) is Percentage
    &&& percent_before(shares, shares.len() as int) == 100
}

/// The shares are lengths but for one, which takes what is left, and that is
/// enough.
pub open spec fn one_flexible(shares: Seq<Share>, middle: int, extent: int) -> bool {
    &&& 0 <= middle < shares.len()
    &&& shares[middle] matches Share::Min(least) && length_before(shares, shares.len() as int)
        + least <= extent
    &&& forall|i: int| 0 <= i < shares.len() && i != middle ==> (#[trigger] shares[i]) is Length
}

/// The edge behind a percentage of an area, rounded to a whole cell.
pub open spec fn percent_edge(area: Area, axis: Axis, percent: int) -> int {
    begin_of(area, axis) + ((end_of(area, axis) - begin_of(area, axis)) * percent + 50) / 100
}

/// The edge in front of a part, where all parts but one have a length.
pub open spec fn length_edge(
    area: Area,
    axis: Axis,
    shares: Seq<Share>,
    middle: int,
    index: int,
) -> int {
    if index <= middle {
        begin_of(area, axis) + length_before(shares, index)
    } else {
        end_of(area, axis) - (length_before(shares, shares.len() as int) - length_before(
            shares,
            index,
        ))
    }
}

/// Calls `ratatui::layout::Layout::split`. Claimed: there is one part for each
/// share, cut off within the area; percentages that make up the whole meet at
/// edges that are rounded to whole cells; and lengths are kept where there is
/// room for them, with a single minimum taking what is left. How other shares
/// are reconciled is left to the solver of the crate, which walks hash maps that
/// each process seeds anew, and is not claimed.
#[verifier::external_body]
fn split_area(area: Area, axis: Axis, shares: &Vec<Share>) -> (result: Vec<Area>)
    ensures
        result@.len() == shares@.len(),
        forall|i: int| 0 <= i < result@.len() ==> sliced_from(#[trigger] result@[i], area, axis),
        whole_percentages(shares@) ==> forall|i: int|
            0 <= i < result@.len() ==> #[trigger] result@[i] == slice(
                area,
                axis,
                percent_edge(area, axis, percent_before(shares@, i)),
                percent_edge(area, axis, percent_before(shares@, i + 1)),
            ),
        forall|middle: int| #[trigger]
            one_flexible(shares@, middle, end_of(area, axis) - begin_of(area, axis)) ==> forall|i: int|
                0 <= i < result@.len() ==> #[trigger] result@[i] == slice(
                    area,
                    axis,
                    length_edge(area, axis, shares@, middle, i),
                    length_edge(area, axis, shares@, middle, i + 1),
                ),
{
    let direction = match axis {
        Axis::Vertical => LayoutDirection::Vertical,
        Axis::Horizontal => LayoutDirection::Horizontal,
    };
    let constraints = shares.iter().map(|share| match share {
        Share::Length(length) => Constraint::Length(*length),
        Share::Min(length) => Constraint::Min(*length),
        Share::Percentage(percent) => Constraint::Percentage(*percent),
    });
    let layout = Layout::default().direction(direction).constraints(constraints);
    let area = Rect { x: area.x, y: area.y, width: area.width, height: area.height };
    layout.split(area).iter().map(|part| Area { x: part.x, y: part.y, width: part.width, height: part.height }).collect()
}

/// An area is cut at a percentage.
pub open spec fn halves(area: Area, axis: Axis, percent: int) -> (Area, Area) {
    (
        slice(area, axis, percent_edge(area, axis, 0), percent_edge(area, axis, percent)),
        slice(area, axis, percent_edge(area, axis, percent), percent_edge(area, axis, 100)),
    )
}

/// Cuts an area at a percentage.
fn halve(area: Area, axis: Axis, percent: u16) -> (result: (Area, Area))
    requires
        percent <= 100,
    ensures
        result == halves(area, axis, percent as int),
{
    let rest: u16 = 100 - percent;
    let shares: Vec<Share> = vec![Share::Percentage(percent), Share::Percentage(rest)];
    proof {
        reveal_with_fuel(percent_before, 3);
    }
    let parts = split_area(area, axis, &shares);
    (parts[0], parts[1])
}

/// The middle of an area, with as much cut off in front of it as behind it.
pub open spec fn middle_of(area: Area, axis: Axis, percent: int) -> Area {
    let beside = (100 - percent) / 2;
    slice(area, axis, percent_edge(area, axis, beside), percent_edge(area, axis, beside + percent))
}

/// Takes the middle of an area.
fn take_middle(area: Area, axis: Axis, percent: u16) -> (result: Area)
    requires
        percent <= 100,
    ensures
        sliced_from(result, area, axis),
        percent % 2 == 0 ==> result == middle_of(area, axis, percent as int),
{
    let beside: u16 = (100 - percent) / 2;
    let shares: Vec<Share> = vec![
        Share::Percentage(beside),
        Share::Percentage(percent),
        Share::Percentage(beside),
    ];
    proof {
        reveal_with_fuel(percent_before, 4);
    }
    let parts = split_area(area, axis, &shares);
    parts[1]
}

/// The tabs, the content and the footer of a screen that has room for them.
pub open spec fn parts_of_screen(screen: Area) -> (Area, Area, Area) {
    let top = screen.y as int;
    let bottom = screen.bottom() as int;
    (
        slice(screen, Axis::Vertical, top, top + 3),
        slice(screen, Axis::Vertical, top + 3, bottom - 2),
        slice(screen, Axis::Vertical, bottom - 2, bottom),
    )
}

/// The tabs, the content and the footer of a screen.
pub fn screen_parts(screen: Area) -> (result: (Area, Area, Area))
    ensures
        sliced_from(result.0, screen, Axis::Vertical),
        sliced_from(result.1, screen, Axis::Vertical),
        sliced_from(result.2, screen, Axis::Vertical),
        screen.bottom() - screen.y >= 13 ==> result == parts_of_screen(screen),
{
    let shares: Vec<Share> = vec![Share::Length(3), Share::Min(8), Share::Length(2)];
    proof {
        reveal_with_fuel(length_before, 4);
        assert(screen.bottom() - screen.y >= 13 ==> one_flexible(
            shares@,
            1,
            screen.bottom() - screen.y,
        ));
    }
    let parts = split_area(screen, Axis::Vertical, &shares);
    (parts[0], parts[1], parts[2])
}

/// The content of a screen, where it is large enough.
pub fn main_content_area(screen: Area) -> (result: Option<Area>)
    ensures
        result is Some <==> screen.sufficient(),
        result matches Some(content) ==> sliced_from(content, screen, Axis::Vertical),
        result is Some && screen.fits() ==> result == Some(parts_of_screen(screen).1),
{
    if !screen.is_sufficient() {
        return None;
    }
    Some(screen_parts(screen).1)
}

/// The areas of the two tables of received values.
pub fn dispatch_value_areas(area: Area) -> (result: (Area, Area))
    ensures
        result == halves(area, Axis::Vertical, 62),
{
    halve(area, Axis::Vertical, 62)
}

/// The areas of the log: its controls, what came and what went, where there is
/// room for them.
pub open spec fn parts_of_log(area: Area) -> (Area, Area, Area) {
    let top = area.y as int;
    let panes = halves(
        slice(area, Axis::Vertical, top + 3, area.bottom() as int),
        Axis::Horizontal,
        50,
    );
    (slice(area, Axis::Vertical, top, top + 3), panes.0, panes.1)
}

/// The areas of the log.
pub fn log_areas(area: Area) -> (result: (Area, Area, Area))
    ensures
        area.bottom() - area.y >= 6 ==> result == parts_of_log(area),
        sliced_from(result.0, area, Axis::Vertical),
        exists|panes: Area|
            sliced_from(panes, area, Axis::Vertical) && (result.1, result.2) == #[trigger] halves(
                panes,
                Axis::Horizontal,
                50,
            ),
{
    let shares: Vec<Share> = vec![Share::Length(3), Share::Min(3)];
    proof {
        reveal_with_fuel(length_before, 3);
        assert(area.bottom() - area.y >= 6 ==> one_flexible(shares@, 1, area.bottom() - area.y));
    }
    let rows = split_area(area, Axis::Vertical, &shares);
    let (incoming, outgoing) = halve(rows[1], Axis::Horizontal, 50);
    (rows[0], incoming, outgoing)
}

/// The areas of the status page: the two connections and what else there is.
pub fn status_areas(area: Area) -> (result: (Area, Area, Area))
    ensures
        ({
            let rows = halves(area, Axis::Vertical, 58);
            (result.0, result.1) == halves(rows.0, Axis::Horizontal, 50) && result.2 == rows.1
        }),
{
    let (connections, status) = halve(area, Axis::Vertical, 58);
    let (collect, dispatch) = halve(connections, Axis::Horizontal, 50);
    (collect, dispatch, status)
}

/// The middle of an area, by shares of its width and height.
pub open spec fn center_of(area: Area, percent_x: int, percent_y: int) -> Area {
    middle_of(middle_of(area, Axis::Vertical, percent_y), Axis::Horizontal, percent_x)
}

/// The middle of an area. Where a share is odd, what is cut off does not make up
/// the whole with it, and nothing but that the middle lies in the area is
/// stated.
pub fn centered_rect(area: Area, percent_x: u16, percent_y: u16) -> (result: Area)
    requires
        percent_x <= 100,
        percent_y <= 100,
    ensures
        percent_x % 2 == 0 && percent_y % 2 == 0 ==> result == center_of(
            area,
            percent_x as int,
            percent_y as int,
        ),
        exists|row: Area| #[trigger]
            sliced_from(row, area, Axis::Vertical) && sliced_from(result, row, Axis::Horizontal),
{
    let row = take_middle(area, Axis::Vertical, percent_y);
    take_middle(row, Axis::Horizontal, percent_x)
}

/// The fields, the message and the buttons of a popup that has room for them.
pub open spec fn parts_of_popup(area: Area) -> (Area, Area, Area) {
    let bottom = area.bottom() as int;
    (
        slice(area, Axis::Vertical, area.y as int, bottom - 4),
        slice(area, Axis::Vertical, bottom - 4, bottom - 2),
        slice(area, Axis::Vertical, bottom - 2, bottom),
    )
}

/// The fields, the message and the buttons of a popup.
pub fn popup_parts(area: Area, fields: u16) -> (result: (Area, Area, Area))
    ensures
        area.bottom() - area.y >= fields + 4 ==> result == parts_of_popup(area),
        sliced_from(result.0, area, Axis::Vertical),
        sliced_from(result.1, area, Axis::Vertical),
        sliced_from(result.2, area, Axis::Vertical),
{
    let shares: Vec<Share> = vec![Share::Min(fields), Share::Length(2), Share::Length(2)];
    proof {
        reveal_with_fuel(length_before, 4);
        assert(area.bottom() - area.y >= fields + 4 ==> one_flexible(
            shares@,
            0,
            area.bottom() - area.y,
        ));
    }
    let parts = split_area(area, Axis::Vertical, &shares);
    (parts[0], parts[1], parts[2])
}

/// Where everything stands that the mouse can point at.
#[derive(Debug, Clone, Copy, PartialEq, Eq, Structural)]
pub struct ScreenAreas {
    pub screen: Area,
    pub tabs: Area,
    pub content: Area,
    pub footer: Area,
    /// The tables of received values.
    pub general: Area,
    pub energy: Area,
    /// The logs.
    pub controls: Area,
    pub incoming: Area,
    pub outgoing: Area,
    /// The popups.
    pub detail: Area,
    pub fault: Area,
    pub form: Area,
    pub form_fields: Area,
    pub form_error: Area,
    pub form_buttons: Area,
    pub value: Area,
    pub value_fields: Area,
    pub value_error: Area,
    pub value_buttons: Area,
}

/// The layout of a screen that is large enough.
pub open spec fn layout_of(screen: Area) -> ScreenAreas {
    let (tabs, content, footer) = parts_of_screen(screen);
    let (general, energy) = halves(content, Axis::Vertical, 62);
    let (controls, incoming, outgoing) = parts_of_log(content);
    let form = center_of(screen, 78, 82);
    let (form_fields, form_error, form_buttons) = parts_of_popup(form);
    let value = center_of(screen, 64, 42);
    let (value_fields, value_error, value_buttons) = parts_of_popup(value);
    ScreenAreas {
        screen,
        tabs,
        content,
        footer,
        general,
        energy,
        controls,
        incoming,
        outgoing,
        detail: center_of(screen, 82, 76),
        fault: center_of(screen, 62, 58),
        form,
        form_fields,
        form_error,
        form_buttons,
        value,
        value_fields,
        value_error,
        value_buttons,
    }
}

impl ScreenAreas {
    /// The areas are those of the screen. On one that is too small only the
    /// popups have their places.
    pub open spec fn laid_out(self, screen: Area) -> bool {
        &&& self.screen == screen
        &&& screen.sufficient() && screen.fits() ==> self == layout_of(screen)
        &&& self.detail == center_of(screen, 82, 76)
        &&& self.fault == center_of(screen, 62, 58)
        &&& self.form == center_of(screen, 78, 82)
        &&& self.value == center_of(screen, 64, 42)
        &&& sliced_from(self.form_fields, self.form, Axis::Vertical)
        &&& sliced_from(self.form_buttons, self.form, Axis::Vertical)
        &&& sliced_from(self.value_buttons, self.value, Axis::Vertical)
    }
}

proof fn lemma_room(screen: Area)
    requires
        screen.sufficient(),
        screen.fits(),
    ensures
        ({
            let content = parts_of_screen(screen).1;
            let form = center_of(screen, 78, 82);
            let value = center_of(screen, 64, 42);
            &&& screen.bottom() - screen.y >= 13
            &&& content.bottom() - content.y >= 6
            &&& form.bottom() - form.y >= 9
            &&& value.bottom() - value.y >= 8
        }),
{
    let extent = screen.height as int;
    assert(0 <= (extent * 9 + 50) / 100 <= (extent * 91 + 50) / 100 <= extent);
    assert((extent * 91 + 50) / 100 - (extent * 9 + 50) / 100 >= 9);
    assert(0 <= (extent * 29 + 50) / 100 <= (extent * 71 + 50) / 100 <= extent);
    assert((extent * 71 + 50) / 100 - (extent * 29 + 50) / 100 >= 8);
}

/// Lays a screen out.
pub fn screen_areas(screen: Area) -> (result: ScreenAreas)
    ensures
        result.laid_out(screen),
{
    let (tabs, content, footer) = screen_parts(screen);
    let (general, energy) = dispatch_value_areas(content);
    let (controls, incoming, outgoing) = log_areas(content);
    let form = centered_rect(screen, 78, 82);
    let (form_fields, form_error, form_buttons) = popup_parts(form, 5);
    let value = centered_rect(screen, 64, 42);
    let (value_fields, value_error, value_buttons) = popup_parts(value, 4);
    proof {
        if screen.sufficient() && screen.fits() {
            lemma_room(screen);
        }
    }
    ScreenAreas {
        screen,
        tabs,
        content,
        footer,
        general,
        energy,
        controls,
        incoming,
        outgoing,
        detail: centered_rect(screen, 82, 76),
        fault: centered_rect(screen, 62, 58),
        form,
        form_fields,
        form_error,
        form_buttons,
        value,
        value_fields,
        value_error,
        value_buttons,
    }
}

// ---------------------------------------------------------------------------
// Tables of points.
/// How many rows of a table are seen in an area, without its borders and head.
pub open spec fn visible_rows(area: Area) -> nat {
    if area.height > 4 {
        (area.height - 3) as nat
    } else {
        1
    }
}

/// The largest offset, at which the last rows fill the area.
pub open spec fn last_offset(count: nat, area: Area) -> nat {
    if count > visible_rows(area) {
        (count - visible_rows(area)) as nat
    } else {
        0
    }
}

pub open spec fn offset_within(offset: nat, last: nat) -> nat {
    if offset <= last {
        offset
    } else {
        last
    }
}

pub fn point_table_visible_rows(area: Area) -> (result: usize)
    ensures
        result == visible_rows(area),
{
    if area.height > 4 {
        (area.height - 3) as usize
    } else {
        1
    }
}

fn largest_offset(point_count: usize, area: Area) -> (result: usize)
    ensures
        result == last_offset(point_count as nat, area),
{
    let visible: usize = point_table_visible_rows(area);
    if point_count > visible {
        point_count - visible
    } else {
        0
    }
}

pub fn clamped_point_offset(offset: usize, point_count: usize, area: Area) -> (result: usize)
    ensures
        result == offset_within(offset as nat, last_offset(point_count as nat, area)),
{
    let last: usize = largest_offset(point_count, area);
    if offset <= last {
        offset
    } else {
        last
    }
}

/// The offset after one step of the wheel.
pub open spec fn scrolled(offset: nat, count: nat, area: Area, forward: bool) -> nat {
    let last = last_offset(count, area);
    let current = offset_within(offset, last);
    if forward {
        offset_within(current + 1, last)
    } else if current > 0 {
        (current - 1) as nat
    } else {
        0
    }
}

pub fn scroll_point_offset(offset: usize, point_count: usize, area: Area, forward: bool) -> (result:
    usize)
    ensures
        result == scrolled(offset as nat, point_count as nat, area, forward),
{
    let last: usize = largest_offset(point_count, area);
    let current: usize = clamped_point_offset(offset, point_count, area);
    if forward {
        if current < last {
            current + 1
        } else {
            last
        }
    } else if current > 0 {
        current - 1
    } else {
        0
    }
}

/// The row of a table that stands in a cell: the rows begin below the border
/// and the head, and end above the border.
pub open spec fn pointed_row(
    area: Area,
    column: u16,
    row: u16,
    offset: nat,
    count: nat,
) -> Option<int> {
    let first = cells_after(area.y, 2);
    let index = offset_within(offset, last_offset(count, area)) + (row - first);
    if area.contains(column, row) && first <= row < cells_before(area.bottom(), 1) && index < count {
        Some(index)
    } else {
        None
    }
}

pub fn point_index_at(area: Area, column: u16, row: u16, offset: usize, point_count: usize) -> (
    result: Option<usize>)
    ensures
        match result {
            Some(index) => pointed_row(area, column, row, offset as nat, point_count as nat)
                == Some(index as int),
            None => pointed_row(area, column, row, offset as nat, point_count as nat) is None,
        },
{
    let first: u16 = area.y.saturating_add(2);
    let bottom: u16 = area.y.saturating_add(area.height);
    let end: u16 = if bottom >= 1 {
        bottom - 1
    } else {
        0
    };
    if !rect_contains(area, column, row) || row < first || row >= end {
        return None;
    }
    let visible_index: usize = (row - first) as usize;
    let offset: usize = clamped_point_offset(offset, point_count, area);
    if point_count - offset > visible_index {
        Some(offset + visible_index)
    } else {
        None
    }
}

// ---------------------------------------------------------------------------
// Tabs.
pub const TAB_COUNT: usize = 7;

pub open spec fn tab_text(index: int) -> Seq<char> {
    if index == 0 {
        "1 状态"@
    } else if index == 1 {
        "2 采集日志"@
    } else if index == 2 {
        "3 调度日志"@
    } else if index == 3 {
        "4 采集指令"@
    } else if index == 4 {
        "5 调度指令"@
    } else if index == 5 {
        "6 采集值"@
    } else {
        "7 调度值"@
    }
}

pub fn tab_title(index: usize) -> (result: &'static str)
    requires
        index < TAB_COUNT,
    ensures
        result@ == tab_text(index as int),
{
    match index {
        0 => "1 状态",
        1 => "2 采集日志",
        2 => "3 调度日志",
        3 => "4 采集指令",
        4 => "5 调度指令",
        5 => "6 采集值",
        _ => "7 调度值",
    }
}

/// How many cells `Span::width` counts for a text.
pub uninterp spec fn ratatui_width(text: Seq<char>) -> nat;

/// Calls `ratatui::text::Span::width`. Claimed: the result depends on the text
/// alone.
#[verifier::external_body]
fn text_width(text: &str) -> (result: usize)
    ensures
        result == ratatui_width(text@),
{
    Span::raw(text).width()
}

/// Where a tab begins: the tabs stand next to each other, with one cell between
/// them.
pub open spec fn tab_start(x: u16, widths: Seq<u16>, index: int) -> u16
    decreases index,
{
    if index <= 0 {
        cells_after(x, 1)
    } else {
        cells_after(cells_after(tab_start(x, widths, index - 1), widths[index - 1]), 1)
    }
}

/// A cell of the line of the tabs belongs to a tab.
pub open spec fn tab_holds(x: u16, widths: Seq<u16>, index: int, column: u16) -> bool {
    tab_start(x, widths, index) <= column < cells_after(
        tab_start(x, widths, index),
        widths[index],
    )
}

/// The tab that stands in a cell.
pub open spec fn pointed_tab(
    area: Area,
    widths: Seq<u16>,
    column: u16,
    row: u16,
    tab: Option<usize>,
) -> bool {
    match tab {
        Some(index) => row == cells_after(area.y, 1) && index < widths.len() && tab_holds(
            area.x,
            widths,
            index as int,
            column,
        ) && forall|i: int| 0 <= i < index ==> !#[trigger] tab_holds(area.x, widths, i, column),
        None => row == cells_after(area.y, 1) ==> forall|i: int|
            0 <= i < widths.len() ==> !#[trigger] tab_holds(area.x, widths, i, column),
    }
}

/// Finds the tab in a cell, by the widths of the tabs.
pub fn tab_among(widths: &Vec<u16>, area: Area, column: u16, row: u16) -> (result: Option<usize>)
    ensures
        pointed_tab(area, widths@, column, row, result),
{
    if row != area.y.saturating_add(1) {
        return None;
    }
    let mut start: u16 = area.x.saturating_add(1);
    let mut index: usize = 0;
    while index < widths.len()
        invariant
            index <= widths@.len(),
            row == cells_after(area.y, 1),
            start == tab_start(area.x, widths@, index as int),
            forall|i: int| 0 <= i < index ==> !#[trigger] tab_holds(area.x, widths@, i, column),
        decreases widths.len() - index,
    {
        let end: u16 = start.saturating_add(widths[index]);
        if column >= start && column < end {
            assert(tab_holds(area.x, widths@, index as int, column));
            return Some(index);
        }
        assert(!tab_holds(area.x, widths@, index as int, column));
        start = end.saturating_add(1);
        index += 1;
    }
    None
}

pub open spec fn tab_widths() -> Seq<u16> {
    Seq::new(TAB_COUNT as nat, |i: int| (ratatui_width(tab_text(i)) % 0x1_0000) as u16)
}

/// The tab that stands in a cell of the line of the tabs.
pub fn tab_at(area: Area, column: u16, row: u16) -> (result: Option<usize>)
    ensures
        pointed_tab(area, tab_widths(), column, row, result),
{
    let mut widths: Vec<u16> = Vec::new();
    let mut index: usize = 0;
    while index < TAB_COUNT
        invariant
            index <= TAB_COUNT,
            widths@ == tab_widths().take(index as int),
        decreases TAB_COUNT - index,
    {
        let width: usize = text_width(tab_title(index)) % 0x1_0000;
        widths.push(width as u16);
        assert(widths@ =~= tab_widths().take(index + 1));
        index += 1;
    }
    assert(widths@ =~= tab_widths());
    tab_among(&widths, area, column, row)
}

// ---------------------------------------------------------------------------
// Laws.
/// On a screen that is large enough the tabs, the content and the footer follow
/// each other and fill it; so do the two tables, and the controls and panes of
/// the log, in the content.
pub proof fn law_parts_fill_the_screen(screen: Area)
    requires
        screen.sufficient(),
        screen.fits(),
    ensures
        ({
            let areas = layout_of(screen);
            &&& areas.tabs.y == screen.y
            &&& areas.content.y == areas.tabs.bottom()
            &&& areas.footer.y == areas.content.bottom()
            &&& areas.footer.bottom() == screen.bottom()
            &&& areas.general.y == areas.content.y
            &&& areas.energy.y == areas.general.bottom()
            &&& areas.energy.bottom() == areas.content.bottom()
            &&& areas.controls.y == areas.content.y
            &&& areas.incoming.y == areas.controls.bottom()
            &&& areas.outgoing.y == areas.controls.bottom()
            &&& areas.incoming.bottom() == areas.content.bottom()
            &&& areas.outgoing.bottom() == areas.content.bottom()
            &&& areas.incoming.x == screen.x
            &&& areas.outgoing.x == areas.incoming.right()
            &&& areas.outgoing.right() == screen.right()
        }),
{
    lemma_room(screen);
    let extent = parts_of_screen(screen).1.height as int;
    assert(0 <= (extent * 62 + 50) / 100 <= extent);
    assert((extent * 100 + 50) / 100 == extent);
    let width = screen.width as int;
    assert(0 <= (width * 50 + 50) / 100 <= width);
    assert((width * 100 + 50) / 100 == width);
}

/// Scrolling never leaves the rows that fill the area, whatever the offset was.
pub proof fn law_offsets_stay_in_range(offset: nat, count: nat, area: Area, forward: bool)
    ensures
        scrolled(offset, count, area, forward) <= last_offset(count, area),
        last_offset(count, area) + visible_rows(area) >= count,
        offset_within(offset, last_offset(count, area)) <= last_offset(count, area),
{
}

/// A step forward and a step back lead to where one was, except at the end.
pub proof fn law_scrolling_back_undoes_scrolling(offset: nat, count: nat, area: Area)
    requires
        offset < last_offset(count, area),
    ensures
        scrolled(scrolled(offset, count, area, true), count, area, false) == offset,
        scrolled(offset, count, area, true) == offset + 1,
{
}

/// The row that the mouse points at is one of those that are seen, and exists.
pub proof fn law_pointed_row_is_seen(area: Area, column: u16, row: u16, offset: nat, count: nat)
    ensures
        pointed_row(area, column, row, offset, count) matches Some(index) ==> {
            let first = offset_within(offset, last_offset(count, area));
            first <= index < first + visible_rows(area) && index < count
        },
{
}

/// An area holds the cells from its corner on, as far as it is wide and high.
pub proof fn law_areas_hold_their_cells(area: Area, column: u16, row: u16)
    requires
        area.fits(),
    ensures
        area.contains(column, row) <==> (area.x <= column && column < area.x + area.width && area.y
            <= row && row < area.y + area.height),
        area.sufficient() <==> area.width >= 80 && area.height >= 24,
{
}

/// The part is so many hundredths of the whole, to the nearest cell at either
/// edge.
pub open spec fn is_share(part: int, whole: int, percent: int) -> bool {
    -100 <= 100 * part - whole * percent <= 100
}

/// The tabs take three rows at the top and the footer two at the bottom. Of the
/// rest the general values take 62 hundredths, and the panes of a log half the
/// width each. The popups are in the middle, each with its share of the screen.
pub proof fn law_areas_have_their_shares(screen: Area)
    requires
        screen.sufficient(),
        screen.fits(),
    ensures
        ({
            let areas = layout_of(screen);
            let width = screen.width as int;
            let height = screen.height as int;
            &&& areas.tabs.height == 3 && areas.footer.height == 2
            &&& areas.tabs.width == width && areas.footer.width == width
            &&& areas.content.height == height - 5
            &&& is_share(areas.general.height as int, areas.content.height as int, 62)
            &&& areas.controls.height == 3
            &&& is_share(areas.incoming.width as int, width, 50)
            &&& is_share(areas.detail.width as int, width, 82)
            &&& is_share(areas.detail.height as int, height, 76)
            &&& is_share(areas.fault.width as int, width, 62)
            &&& is_share(areas.fault.height as int, height, 58)
            &&& is_share(areas.form.width as int, width, 78)
            &&& is_share(areas.form.height as int, height, 82)
            &&& is_share(areas.value.width as int, width, 64)
            &&& is_share(areas.value.height as int, height, 42)
            &&& areas.form_error.height == 2 && areas.form_buttons.height == 2
            &&& areas.value_error.height == 2 && areas.value_buttons.height == 2
            &&& areas.form_fields.y == areas.form.y
            &&& areas.form_error.y == areas.form_fields.bottom()
            &&& areas.form_buttons.y == areas.form_error.bottom()
            &&& areas.form_buttons.bottom() == areas.form.bottom()
        }),
{
    lemma_room(screen);
    law_parts_fill_the_screen(screen);
    let width = screen.width as int;
    let height = screen.height as int;
    let rest = parts_of_screen(screen).1.height as int;
    lemma_middle_share(width, 9, 91);
    lemma_middle_share(width, 19, 81);
    lemma_middle_share(width, 11, 89);
    lemma_middle_share(width, 18, 82);
    lemma_middle_share(height, 12, 88);
    lemma_middle_share(height, 21, 79);
    lemma_middle_share(height, 9, 91);
    lemma_middle_share(height, 29, 71);
    assert((rest * 0 + 50) / 100 == 0 && (width * 0 + 50) / 100 == 0);
    assert(0 <= (rest * 62 + 50) / 100 <= rest);
    assert(0 <= (width * 50 + 50) / 100 <= width);
}

proof fn lemma_middle_share(extent: int, low: int, high: int)
    requires
        0 <= extent,
        0 <= low <= high <= 100,
    ensures
        ({
            let from = (extent * low + 50) / 100;
            let to = (extent * high + 50) / 100;
            0 <= from <= to <= extent && is_share(to - from, extent, high - low)
        }),
{
    assert(0 <= extent * low <= extent * high <= extent * 100 && extent * high - extent * low
        == extent * (high - low)) by (nonlinear_arith)
        requires
            0 <= extent,
            0 <= low <= high <= 100,
    ;
}

/// A table shows a row for every row of its area but the frame and the heading,
/// and at least one. It can be moved until the last row is the last that is
/// seen, one row at a time, and no further.
pub proof fn law_tables_move_row_by_row(offset: nat, count: nat, area: Area)
    ensures
        area.height >= 4 ==> visible_rows(area) == area.height - 3,
        area.height < 4 ==> visible_rows(area) == 1,
        count <= visible_rows(area) ==> last_offset(count, area) == 0,
        count > visible_rows(area) ==> last_offset(count, area) + visible_rows(area) == count,
        offset <= last_offset(count, area) ==> {
            &&& offset_within(offset, last_offset(count, area)) == offset
            &&& scrolled(offset, count, area, true) == (if offset < last_offset(count, area) {
                offset + 1
            } else {
                offset
            })
            &&& scrolled(offset, count, area, false) == (if offset > 0 {
                offset - 1
            } else {
                0
            })
        },
        offset > last_offset(count, area) ==> offset_within(offset, last_offset(count, area))
            == last_offset(count, area),
{
}

/// The row that is pointed at is the one that is drawn there: the rows begin
/// under the frame and the heading, and nothing is pointed at on those or on the
/// frame below.
pub proof fn law_pointing_finds_the_drawn_row(
    area: Area,
    column: u16,
    row: u16,
    offset: nat,
    count: nat,
)
    requires
        area.fits(),
        area.height >= 4,
        offset <= last_offset(count, area),
    ensures
        ({
            let line = row - area.y - 2;
            let found = pointed_row(area, column, row, offset, count);
            let inside = area.x <= column && column < area.x + area.width && 0 <= line && line
                < area.height - 3;
            &&& found is Some <==> inside && offset + line < count
            &&& found matches Some(index) ==> index == offset + line
        }),
{
}

/// The tabs stand side by side with one cell before each; the one that is
/// pointed at is the one whose title is there.
pub proof fn law_tabs_stand_side_by_side(x: u16, widths: Seq<u16>, index: int)
    requires
        0 <= index < widths.len(),
    ensures
        x < u16::MAX ==> tab_start(x, widths, 0) == x + 1,
        tab_start(x, widths, index) + widths[index] < u16::MAX ==> tab_start(x, widths, index + 1)
            == tab_start(x, widths, index) + widths[index] + 1,
{
    reveal_with_fuel(tab_start, 2);
}

} // verus!
