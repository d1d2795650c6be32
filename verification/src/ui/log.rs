//! What of a log is seen.

use crate::model::{log_views, Direction, LogCategory, LogEntry, LogView};
use crate::ui::area::Area;
use std::collections::VecDeque;
use vstd::prelude::*;

verus! {

/// The entries that the operator wants to see.
#[derive(Debug, Clone, Copy, PartialEq, Eq, Structural)]
pub enum LogFilter {
    All,
    Protocol,
    Control,
    Interrogation,
    Connection,
}

impl LogFilter {
    pub open spec fn following(self) -> LogFilter {
        match self {
            Self::All => Self::Protocol,
            Self::Protocol => Self::Control,
            Self::Control => Self::Interrogation,
            Self::Interrogation => Self::Connection,
            Self::Connection => Self::All,
        }
    }

    pub fn next(self) -> (result: Self)
        ensures
            result == self.following(),
    {
        match self {
            Self::All => Self::Protocol,
            Self::Protocol => Self::Control,
            Self::Control => Self::Interrogation,
            Self::Interrogation => Self::Connection,
            Self::Connection => Self::All,
        }
    }

    pub open spec fn label_text(self) -> Seq<char> {
        match self {
            Self::All => "全部"@,
            Self::Protocol => "协议"@,
            Self::Control => "控制"@,
            Self::Interrogation => "召唤"@,
            Self::Connection => "连接"@,
        }
    }

    pub fn label(self) -> (result: &'static str)
        ensures
            result@ == self.label_text(),
    {
        match self {
            Self::All => "全部",
            Self::Protocol => "协议",
            Self::Control => "控制",
            Self::Interrogation => "召唤",
            Self::Connection => "连接",
        }
    }

    /// An entry of a category is seen; the marks of commands always are.
    pub open spec fn shows(self, category: LogCategory) -> bool {
        category is CommandDivider || match self {
            Self::All => true,
            Self::Protocol => category is Protocol || category is KeepAlive,
            Self::Control => category is Control,
            Self::Interrogation => category is Interrogation,
            Self::Connection => category is Connection,
        }
    }

    pub fn matches(self, category: LogCategory) -> (result: bool)
        ensures
            result == self.shows(category),
    {
        if category == LogCategory::CommandDivider {
            return true;
        }
        match self {
            Self::All => true,
            Self::Protocol => matches!(category, LogCategory::Protocol | LogCategory::KeepAlive),
            Self::Control => category == LogCategory::Control,
            Self::Interrogation => category == LogCategory::Interrogation,
            Self::Connection => category == LogCategory::Connection,
        }
    }
}

/// The entries of a log that a filter shows, in their order.
pub open spec fn shown_entries(logs: Seq<LogView>, filter: LogFilter) -> Seq<LogView>
    decreases logs.len(),
{
    if logs.len() == 0 {
        logs
    } else {
        let before = shown_entries(logs.drop_last(), filter);
        if filter.shows(logs.last().category) {
            before.push(logs.last())
        } else {
            before
        }
    }
}

/// The entry that stands so many places before the last one that is shown.
pub open spec fn entry_back(logs: Seq<LogView>, filter: LogFilter, offset: nat) -> Option<LogView> {
    let shown = shown_entries(logs, filter);
    if offset < shown.len() {
        Some(shown[shown.len() - 1 - offset])
    } else {
        None
    }
}

pub open spec fn entry_view(entry: Option<LogEntry>) -> Option<LogView> {
    match entry {
        Some(entry) => Some(entry@),
        None => None,
    }
}

/// Finds the entry that stands so many places before the last one that is
/// shown.
pub fn find_entry(logs: &VecDeque<LogEntry>, filter: LogFilter, offset: usize) -> (result: Option<
    LogEntry,
>)
    ensures
        entry_view(result) == entry_back(log_views(logs@), filter, offset as nat),
{
    let ghost views = log_views(logs@);
    let mut rest: usize = logs.len();
    let mut left: usize = offset;
    assert(views.take(rest as int) =~= views);
    while rest > 0
        invariant
            rest <= logs@.len(),
            views == log_views(logs@),
            entry_back(views.take(rest as int), filter, left as nat) == entry_back(
                views,
                filter,
                offset as nat,
            ),
        decreases rest,
    {
        let ghost longer = views.take(rest as int);
        assert(longer.drop_last() =~= views.take(rest - 1));
        assert(longer.last() == logs@[rest - 1]@);
        rest -= 1;
        if filter.matches(logs[rest].category) {
            if left == 0 {
                return Some(logs[rest].copy());
            }
            left -= 1;
        }
    }
    None
}

/// How far back the earliest entry that is shown stands.
pub open spec fn earliest_offset(logs: Seq<LogView>, filter: LogFilter) -> int {
    let shown = shown_entries(logs, filter);
    if shown.len() > 0 {
        shown.len() - 1
    } else {
        0
    }
}

/// Finds how far back the earliest entry that is shown stands.
pub fn earliest_back(logs: &VecDeque<LogEntry>, filter: LogFilter) -> (result: usize)
    ensures
        result == earliest_offset(log_views(logs@), filter),
{
    let ghost views = log_views(logs@);
    let mut count: usize = 0;
    let mut index: usize = 0;
    assert(views.take(0) =~= Seq::<LogView>::empty());
    while index < logs.len()
        invariant
            index <= logs@.len(),
            views == log_views(logs@),
            count <= index,
            count == shown_entries(views.take(index as int), filter).len(),
        decreases logs.len() - index,
    {
        assert(views.take(index + 1).drop_last() =~= views.take(index as int));
        assert(views.take(index + 1).last() == logs@[index as int]@);
        if filter.matches(logs[index].category) {
            count += 1;
        }
        index += 1;
    }
    assert(views.take(index as int) =~= views);
    if count > 0 {
        count - 1
    } else {
        0
    }
}

/// An entry is seen in one of the two panes: what came, or all the rest.
pub open spec fn in_pane(entry: LogView, direction: Direction, filter: LogFilter) -> bool {
    filter.shows(entry.category) && (entry.category is CommandDivider || if direction is Outgoing {
        entry.direction !is Incoming
    } else {
        entry.direction == direction
    })
}

/// The entries of a pane, in their order.
pub open spec fn pane_entries(
    logs: Seq<LogView>,
    direction: Direction,
    filter: LogFilter,
) -> Seq<LogView>
    decreases logs.len(),
{
    if logs.len() == 0 {
        logs
    } else {
        let before = pane_entries(logs.drop_last(), direction, filter);
        if in_pane(logs.last(), direction, filter) {
            before.push(logs.last())
        } else {
            before
        }
    }
}

/// The entries of a pane that are seen: as many as fit between the borders, of
/// which the last stands so many places before the end; one always is.
pub open spec fn window(
    logs: Seq<LogView>,
    direction: Direction,
    filter: LogFilter,
    offset: nat,
    area: Area,
) -> Seq<LogView> {
    let entries = pane_entries(logs, direction, filter);
    let length = entries.len() as int;
    let back = if length == 0 {
        0int
    } else if offset < length {
        offset as int
    } else {
        length - 1
    };
    let visible = if area.height > 2 {
        area.height - 2
    } else {
        0
    };
    let end = length - back;
    let start = if end > visible {
        end - visible
    } else {
        0
    };
    entries.subrange(start, end)
}

pub fn log_window(
    logs: &VecDeque<LogEntry>,
    direction: Direction,
    filter: LogFilter,
    log_offset: usize,
    area: Area,
) -> (result: Vec<LogEntry>)
    ensures
        log_views(result@) == window(
            log_views(logs@),
            direction,
            filter,
            log_offset as nat,
            area,
        ),
{
    let ghost views = log_views(logs@);
    let mut entries: Vec<usize> = Vec::new();
    let mut index: usize = 0;
    assert(views.take(0) =~= Seq::<LogView>::empty());
    while index < logs.len()
        invariant
            index <= logs@.len(),
            views == log_views(logs@),
            entries@.len() == pane_entries(views.take(index as int), direction, filter).len(),
            entries@.len() <= index,
            forall|i: int|
                0 <= i < entries@.len() ==> (#[trigger] entries@[i]) < index
                    && logs@[entries@[i] as int]@ == pane_entries(
                    views.take(index as int),
                    direction,
                    filter,
                )[i],
        decreases logs.len() - index,
    {
        let ghost before = pane_entries(views.take(index as int), direction, filter);
        assert(views.take(index + 1).drop_last() =~= views.take(index as int));
        assert(views.take(index + 1).last() == logs@[index as int]@);
        let entry = &logs[index];
        let passes = if entry.category == LogCategory::CommandDivider {
            true
        } else if direction == Direction::Outgoing {
            entry.direction != Direction::Incoming
        } else {
            entry.direction == direction
        };
        if passes && filter.matches(entry.category) {
            entries.push(index);
        }
        index += 1;
    }
    assert(views.take(index as int) =~= views);
    let ghost all = pane_entries(views, direction, filter);
    let length: usize = entries.len();
    let back: usize = if length == 0 {
        0
    } else if log_offset < length {
        log_offset
    } else {
        length - 1
    };
    let visible: usize = if area.height > 2 {
        (area.height - 2) as usize
    } else {
        0
    };
    let end: usize = length - back;
    let start: usize = if end > visible {
        end - visible
    } else {
        0
    };
    let mut result: Vec<LogEntry> = Vec::new();
    let mut position: usize = start;
    while position < end
        invariant
            start <= position <= end,
            end <= entries@.len(),
            all.len() == entries@.len(),
            forall|i: int|
                0 <= i < entries@.len() ==> (#[trigger] entries@[i]) < logs@.len()
                    && logs@[entries@[i] as int]@ == all[i],
            result@.len() == position - start,
            forall|i: int| 0 <= i < result@.len() ==> (#[trigger] result@[i])@ == all[start + i],
        decreases end - position,
    {
        let found: usize = entries[position];
        result.push(logs[found].copy());
        position += 1;
    }
    assert(log_views(result@) =~= all.subrange(start as int, end as int));
    result
}

/// Five steps lead through all filters and back.
pub proof fn law_filters_form_a_ring(filter: LogFilter)
    ensures
        filter.following().following().following().following().following() == filter,
        filter.following() != filter,
{
}

/// With no offset the latest entries of a pane are seen, and never more than
/// fit.
pub proof fn law_window_shows_the_latest(
    logs: Seq<LogView>,
    direction: Direction,
    filter: LogFilter,
    offset: nat,
    area: Area,
)
    ensures
        ({
            let seen = window(logs, direction, filter, offset, area);
            let entries = pane_entries(logs, direction, filter);
            &&& area.height > 2 ==> seen.len() <= area.height - 2
            &&& area.height <= 2 ==> seen.len() == 0
            &&& area.height > 2 && entries.len() > 0 ==> seen.len() > 0
            &&& offset == 0 && area.height > 2 && entries.len() > 0 ==> seen.last()
                == entries.last()
        }),
{
}

/// A pane holds no more entries than the filter shows.
proof fn lemma_pane_is_no_longer(logs: Seq<LogView>, direction: Direction, filter: LogFilter)
    ensures
        pane_entries(logs, direction, filter).len() <= shown_entries(logs, filter).len(),
    decreases logs.len(),
{
    if logs.len() > 0 {
        lemma_pane_is_no_longer(logs.drop_last(), direction, filter);
    }
}

/// As far back as the earliest entry, each pane shows its own earliest one.
pub proof fn law_window_shows_the_earliest(
    logs: Seq<LogView>,
    direction: Direction,
    filter: LogFilter,
    area: Area,
)
    ensures
        ({
            let seen = window(
                logs,
                direction,
                filter,
                earliest_offset(logs, filter) as nat,
                area,
            );
            let entries = pane_entries(logs, direction, filter);
            area.height > 2 && entries.len() > 0 ==> seen == seq![entries[0]]
        }),
{
    lemma_pane_is_no_longer(logs, direction, filter);
    let seen = window(logs, direction, filter, earliest_offset(logs, filter) as nat, area);
    let entries = pane_entries(logs, direction, filter);
    if area.height > 2 && entries.len() > 0 {
        assert(seen =~= seq![entries[0]]);
    }
}

/// The entry is one that a filter is for: a filter shows the entries of its own
/// category, the one for the protocol also those that keep the link alive, the
/// one for all every entry. The marks of commands are always shown.
pub open spec fn is_for(entry: LogView, filter: LogFilter) -> bool {
    match entry.category {
        LogCategory::CommandDivider => true,
        LogCategory::Protocol | LogCategory::KeepAlive => filter is All || filter is Protocol,
        LogCategory::Control => filter is All || filter is Control,
        LogCategory::Interrogation => filter is All || filter is Interrogation,
        LogCategory::Connection => filter is All || filter is Connection,
        LogCategory::ActiveUpload | LogCategory::Configuration => filter is All,
    }
}

/// The entry is one of a pane: the one for what came shows what came, and the
/// other shows all else; the marks of commands are in both.
pub open spec fn is_beside(entry: LogView, direction: Direction) -> bool {
    ||| entry.category is CommandDivider
    ||| direction is Incoming && entry.direction is Incoming
    ||| direction is Outgoing && (entry.direction is Outgoing || entry.direction is Internal)
    ||| direction is Internal && entry.direction is Internal
}

/// What is seen of a log are the entries that the filter is for, in their order,
/// and in a pane those of them that are of the pane.
pub proof fn law_filters_pick_their_entries(
    logs: Seq<LogView>,
    direction: Direction,
    filter: LogFilter,
)
    ensures
        shown_entries(logs, filter) == logs.filter(|entry: LogView| is_for(entry, filter)),
        pane_entries(logs, direction, filter) == logs.filter(
            |entry: LogView| is_for(entry, filter) && is_beside(entry, direction),
        ),
    decreases logs.len(),
{
    reveal(Seq::filter);
    if logs.len() > 0 {
        law_filters_pick_their_entries(logs.drop_last(), direction, filter);
    } else {
        assert(shown_entries(logs, filter) =~= Seq::<LogView>::empty());
    }
}

/// Going back from the latest entry passes every one that the filter is for, up
/// to the earliest, which is as far back as one can go.
pub proof fn law_entries_are_counted_back(logs: Seq<LogView>, filter: LogFilter, offset: nat)
    ensures
        ({
            let picked = logs.filter(|entry: LogView| is_for(entry, filter));
            &&& (entry_back(logs, filter, offset) is Some) <==> offset < picked.len()
            &&& entry_back(logs, filter, offset) matches Some(entry) ==> entry
                == picked[picked.len() - 1 - offset]
            &&& picked.len() > 0 ==> entry_back(
                logs,
                filter,
                earliest_offset(logs, filter) as nat,
            ) == Some(picked[0])
            &&& picked.len() == 0 ==> earliest_offset(logs, filter) == 0
        }),
{
    law_filters_pick_their_entries(logs, Direction::Incoming, filter);
}

/// A pane shows entries that follow each other, up to the one that the offset
/// counts back to, and as many before it as there is room for inside the frame.
pub proof fn law_panes_show_a_run_of_entries(
    logs: Seq<LogView>,
    direction: Direction,
    filter: LogFilter,
    offset: nat,
    area: Area,
)
    requires
        area.height > 2,
    ensures
        ({
            let entries = logs.filter(
                |entry: LogView| is_for(entry, filter) && is_beside(entry, direction),
            );
            let seen = window(logs, direction, filter, offset, area);
            &&& offset < entries.len() ==> {
                let end = entries.len() - offset;
                &&& seen.len() == (if end < area.height - 2 {
                    end
                } else {
                    area.height - 2
                })
                &&& forall|i: int|
                    0 <= i < seen.len() ==> #[trigger] seen[i] == entries[end - seen.len() + i]
            }
            &&& offset >= entries.len() && entries.len() > 0 ==> seen == seq![entries[0]]
            &&& entries.len() == 0 ==> seen.len() == 0
        }),
{
    law_filters_pick_their_entries(logs, direction, filter);
    let entries = pane_entries(logs, direction, filter);
    let seen = window(logs, direction, filter, offset, area);
    if offset >= entries.len() && entries.len() > 0 {
        assert(seen =~= seq![entries[0]]);
    }
}

/// The filters follow each other from the one for all on: protocol, control,
/// interrogation, connection.
pub proof fn law_filters_follow_each_other()
    ensures
        LogFilter::All.following() is Protocol,
        LogFilter::All.following().following() is Control,
        LogFilter::All.following().following().following() is Interrogation,
        LogFilter::All.following().following().following().following() is Connection,
{
}

} // verus!
