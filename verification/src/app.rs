use std::sync::Arc;
use vstd::prelude::*;

use crate::model::{
    command_line_text, total_order_key, CommandLine, ProcessSnapshot, Snapshot,
};
use crate::strings::{
    chars_of, compare_chars, compare_text, contains_chars, contains_run,
    lemma_compare_text_total_order, to_lowercase, unicode_lowercase,
};
use crate::text::{maximum_offset_of, maximum_scroll_offset};

verus! {

/// The supported sort keys for the process table.
#[derive(Clone, Copy, Debug, Default, PartialEq, Eq, Structural)]
pub enum SortColumn {
    #[default]
    Pid,
    Name,
    CpuPercent,
    Memory,
}

/// The direction in which the active sort column is ordered.
#[derive(Clone, Copy, Debug, Default, PartialEq, Eq, Structural)]
pub enum SortDirection {
    #[default]
    Ascending,
    Descending,
}

/// The active sort specification for visible processes.
#[derive(Clone, Copy, Debug, Default, PartialEq, Eq, Structural)]
pub struct SortSpec {
    pub column: SortColumn,
    pub direction: SortDirection,
}

/// The keys the process table responds to; every other key is `Other`.
#[derive(Clone, Copy, Debug, PartialEq, Eq, Structural)]
pub enum KeyCode {
    Char(char),
    Esc,
    Up,
    Down,
    Left,
    Right,
    PageUp,
    PageDown,
    Home,
    End,
    Enter,
    Other,
}

/// -1, 0 or 1 as `a` is below, equal to or above `b`.
pub open spec fn sign(a: int, b: int) -> int {
    if a < b {
        -1
    } else if a > b {
        1
    } else {
        0
    }
}

/// How two processes compare on one sort column: PIDs and memory as
/// integers, names case-insensitively (lowercased, then in `String` order),
/// CPU usage in the total order of `f32::total_cmp`.
pub open spec fn column_order(a: ProcessSnapshot, b: ProcessSnapshot, column: SortColumn) -> int {
    match column {
        SortColumn::Pid => sign(a.pid as int, b.pid as int),
        SortColumn::Name => compare_text(unicode_lowercase(a.name@), unicode_lowercase(b.name@)),
        SortColumn::CpuPercent => sign(
            total_order_key(a.cpu_percent),
            total_order_key(b.cpu_percent),
        ),
        SortColumn::Memory => sign(a.memory_bytes as int, b.memory_bytes as int),
    }
}

/// The table order: the sort column in the sort direction, then the PID
/// ascending as a deterministic tie-breaker.
pub open spec fn process_order(a: ProcessSnapshot, b: ProcessSnapshot, sort: SortSpec) -> int {
    let by_column = if sort.direction == SortDirection::Descending {
        -column_order(a, b, sort.column)
    } else {
        column_order(a, b, sort.column)
    };
    if by_column != 0 {
        by_column
    } else {
        sign(a.pid as int, b.pid as int)
    }
}

/// Whether a process passes a filter that has already been lowercased: an
/// empty filter passes everything; otherwise the lowercased name, or the
/// lowercased command line when one is present, must contain it.
pub open spec fn matches_filter(process: ProcessSnapshot, lowered_filter: Seq<char>) -> bool {
    ||| lowered_filter.len() == 0
    ||| contains_run(unicode_lowercase(process.name@), lowered_filter)
    ||| (process.command_line matches CommandLine::Present(command_line) && contains_run(
        unicode_lowercase(command_line@),
        lowered_filter,
    ))
}

/// The indices, in snapshot order, of the first `n` processes that pass the
/// filter.
pub open spec fn matching_indices(
    processes: Seq<ProcessSnapshot>,
    lowered_filter: Seq<char>,
    n: int,
) -> Seq<usize>
    decreases n,
{
    if n <= 0 {
        Seq::empty()
    } else {
        let rest = matching_indices(processes, lowered_filter, n - 1);
        if matches_filter(processes[n - 1], lowered_filter) {
            rest.push((n - 1) as usize)
        } else {
            rest
        }
    }
}

/// Where a stable sort places `item` in the already sorted `order`: before
/// the first entry that sorts strictly after it.
pub open spec fn insertion_point(
    processes: Seq<ProcessSnapshot>,
    order: Seq<usize>,
    item: usize,
    sort: SortSpec,
    from: int,
) -> int
    decreases order.len() - from,
{
    if from >= order.len() {
        order.len() as int
    } else if process_order(processes[order[from] as int], processes[item as int], sort) > 0 {
        from
    } else {
        insertion_point(processes, order, item, sort, from + 1)
    }
}

/// The indices `indices` stably sorted by the table order of the processes
/// they designate.
pub open spec fn sorted_indices(
    processes: Seq<ProcessSnapshot>,
    indices: Seq<usize>,
    sort: SortSpec,
) -> Seq<usize>
    decreases indices.len(),
{
    if indices.len() == 0 {
        indices
    } else {
        let rest = sorted_indices(processes, indices.drop_last(), sort);
        rest.insert(insertion_point(processes, rest, indices.last(), sort, 0), indices.last())
    }
}

/// The snapshot indices of the visible processes, in table order.
pub open spec fn visible_order(
    processes: Seq<ProcessSnapshot>,
    filter: Seq<char>,
    sort: SortSpec,
) -> Seq<usize> {
    sorted_indices(
        processes,
        matching_indices(processes, unicode_lowercase(filter), processes.len() as int),
        sort,
    )
}

/// The visible processes, in table order.
pub open spec fn visible_of(
    processes: Seq<ProcessSnapshot>,
    filter: Seq<char>,
    sort: SortSpec,
) -> Seq<ProcessSnapshot> {
    visible_order(processes, filter, sort).map_values(|i: usize| processes[i as int])
}

/// The first position at or after `from` of a process with the given PID.
pub open spec fn pid_position_from(rows: Seq<ProcessSnapshot>, pid: u32, from: int) -> Option<int>
    decreases rows.len() - from,
{
    if from >= rows.len() || from < 0 {
        None
    } else if rows[from].pid == pid {
        Some(from)
    } else {
        pid_position_from(rows, pid, from + 1)
    }
}

/// The first position of a process with the given PID.
pub open spec fn pid_position(rows: Seq<ProcessSnapshot>, pid: u32) -> Option<int> {
    pid_position_from(rows, pid, 0)
}

/// The vertical offset that keeps the selected row inside a viewport of
/// `rows` rows over `count` rows: clamped so that the viewport does not run
/// past the end, then moved just enough to show the selection.
pub open spec fn offset_showing(offset: usize, count: int, rows: usize, selected: Option<int>) -> usize {
    if count == 0 || rows == 0 {
        0
    } else {
        let maximum = if count > rows { (count - rows) as usize } else { 0usize };
        let clamped = if offset <= maximum { offset } else { maximum };
        match selected {
            Some(index) => if index < clamped {
                index as usize
            } else if index >= clamped + rows {
                (index + 1 - rows) as usize
            } else {
                clamped
            },
            None => clamped,
        }
    }
}

/// The position of the selected process among `rows`, if it is there.
pub open spec fn position_of(rows: Seq<ProcessSnapshot>, selection: Option<u32>) -> Option<int> {
    match selection {
        Some(pid) => pid_position(rows, pid),
        None => None,
    }
}

/// Whether the selected process is among `rows`.
pub open spec fn keeps_selection(rows: Seq<ProcessSnapshot>, selection: Option<u32>) -> bool {
    position_of(rows, selection) is Some
}

/// The greatest command-line offset for the selected process: the greatest
/// scroll offset of its command-line text in a viewport of `viewport_cells`
/// cells, or 0 without a selected process.
pub open spec fn command_limit(
    rows: Seq<ProcessSnapshot>,
    selection: Option<u32>,
    viewport_cells: u16,
) -> u16 {
    match position_of(rows, selection) {
        Some(index) => maximum_offset_of(command_line_text(rows[index]), viewport_cells),
        None => 0,
    }
}

/// The selection after the visible rows have changed: none when no row is
/// visible; the same process when it is still visible; otherwise the row at
/// the previous position, or the last row when the list became shorter (the
/// first row when nothing was selected before).
pub open spec fn reconciled_selection(
    rows: Seq<ProcessSnapshot>,
    selection: Option<u32>,
    previous: Option<int>,
) -> Option<u32> {
    if rows.len() == 0 {
        None
    } else if keeps_selection(rows, selection) {
        selection
    } else {
        let wanted = match previous {
            Some(index) => index,
            None => 0,
        };
        let index = if wanted <= rows.len() - 1 {
            wanted
        } else {
            rows.len() - 1
        };
        Some(rows[index].pid)
    }
}

pub open spec fn min_u16(a: u16, b: u16) -> u16 {
    if a <= b {
        a
    } else {
        b
    }
}

/// Owns the application state that is independent of terminal rendering.
///
/// Keeping this state separate from the renderer makes navigation and data
/// transforms testable without a terminal.
#[derive(Debug, Default)]
pub struct App {
    should_quit: bool,
    snapshot: Option<Arc<Snapshot>>,
    selected_pid: Option<u32>,
    vertical_offset: usize,
    viewport_rows: usize,
    command_line_offset_cells: u16,
    command_line_viewport_cells: u16,
    sort: SortSpec,
    filter: String,
}

impl App {
    /// Whether the user asked to quit.
    pub closed spec fn quitting(self) -> bool {
        self.should_quit
    }

    /// The snapshot being shown.
    pub closed spec fn current(self) -> Option<Snapshot> {
        match self.snapshot {
            Some(snapshot) => Some(*snapshot),
            None => None,
        }
    }

    /// The PID of the selected process.
    pub closed spec fn selection(self) -> Option<u32> {
        self.selected_pid
    }

    /// The index of the first visible row shown in the table viewport.
    pub closed spec fn offset(self) -> usize {
        self.vertical_offset
    }

    /// The number of rows the table viewport shows.
    pub closed spec fn rows(self) -> usize {
        self.viewport_rows
    }

    /// How far, in cells, the selected command line is scrolled.
    pub closed spec fn command_offset(self) -> u16 {
        self.command_line_offset_cells
    }

    /// The width, in cells, of the command-line viewport.
    pub closed spec fn command_viewport(self) -> u16 {
        self.command_line_viewport_cells
    }

    pub closed spec fn sort_spec(self) -> SortSpec {
        self.sort
    }

    pub closed spec fn filter_text(self) -> Seq<char> {
        self.filter@
    }

    /// The processes of the current snapshot (none without one).
    pub open spec fn processes(self) -> Seq<ProcessSnapshot> {
        match self.current() {
            Some(snapshot) => snapshot.processes.value@,
            None => Seq::empty(),
        }
    }

    /// The processes that pass the filter, in table order.
    pub open spec fn visible(self) -> Seq<ProcessSnapshot> {
        visible_of(self.processes(), self.filter_text(), self.sort_spec())
    }

    /// The position of the selected process among the visible ones.
    pub open spec fn selected_position(self) -> Option<int> {
        position_of(self.visible(), self.selection())
    }

    /// The greatest command-line offset for the current selection.
    pub open spec fn command_offset_limit(self) -> u16 {
        command_limit(self.visible(), self.selection(), self.command_viewport())
    }

    /// The state every operation keeps: a process is selected exactly when
    /// some process is visible, and then it is a visible one; the
    /// command-line offset is within its limit; the table viewport does not
    /// start past the last full page.
    pub open spec fn wf(self) -> bool {
        &&& (self.selection() is Some) == (self.visible().len() > 0)
        &&& (self.selection() is Some ==> self.selected_position() is Some)
        &&& self.command_offset() <= self.command_offset_limit()
        &&& (self.visible().len() <= self.rows() ==> self.offset() == 0)
        &&& (self.rows() == 0 ==> self.offset() == 0)
        &&& (self.visible().len() > self.rows() ==> self.offset() <= self.visible().len()
            - self.rows())
    }

    /// `self` shows the same snapshot, filter and sort as `other`, hence the
    /// same visible rows.
    pub open spec fn keeps_rows_of(self, other: App) -> bool {
        &&& self.current() == other.current()
        &&& self.sort_spec() == other.sort_spec()
        &&& self.filter_text() == other.filter_text()
    }

    /// `self` agrees with `other` on the quit request and viewport sizes.
    pub open spec fn keeps_view_of(self, other: App) -> bool {
        &&& self.quitting() == other.quitting()
        &&& self.rows() == other.rows()
        &&& self.command_viewport() == other.command_viewport()
    }

    /// `self` has the selection and both offsets of `other`.
    pub open spec fn keeps_position_of(self, other: App) -> bool {
        &&& self.selection() == other.selection()
        &&& self.offset() == other.offset()
        &&& self.command_offset() == other.command_offset()
    }

    /// `self` is `other` unchanged, as far as any accessor can tell.
    pub open spec fn unchanged_from(self, other: App) -> bool {
        &&& self.keeps_rows_of(other)
        &&& self.keeps_view_of(other)
        &&& self.keeps_position_of(other)
    }

    /// `self` is `before` after moving the selection to visible row `index`
    /// (nothing changes when there is no such row): that row's process is
    /// selected, its command line starts unscrolled unless it was already
    /// selected, and the viewport moves to show it.
    pub open spec fn moved_to(self, before: App, index: int) -> bool {
        let rows = before.visible();
        if 0 <= index < rows.len() {
            let pid = rows[index].pid;
            &&& self.keeps_rows_of(before)
            &&& self.keeps_view_of(before)
            &&& self.selection() == Some(pid)
            &&& self.command_offset() == if before.selection() == Some(pid) {
                before.command_offset()
            } else {
                0
            }
            &&& self.offset() == offset_showing(
                before.offset(),
                rows.len() as int,
                before.rows(),
                pid_position(rows, pid),
            )
        } else {
            self.unchanged_from(before)
        }
    }

    /// `self` is `before` after moving the selection `distance` rows up
    /// (`backward`) or down, stopping at the first or last row; nothing
    /// changes without a selection.
    pub open spec fn moved_by(self, before: App, backward: bool, distance: int) -> bool {
        match before.selected_position() {
            None => self.unchanged_from(before),
            Some(current) => {
                let last = if before.visible().len() > 0 {
                    before.visible().len() - 1
                } else {
                    0
                };
                let forward = if current + distance <= usize::MAX {
                    current + distance
                } else {
                    usize::MAX as int
                };
                let destination = if backward {
                    if current >= distance {
                        current - distance
                    } else {
                        0
                    }
                } else if forward <= last {
                    forward
                } else {
                    last
                };
                self.moved_to(before, destination)
            },
        }
    }

    /// The number of rows a page key moves.
    pub open spec fn page_rows(self) -> int {
        if self.rows() >= 1 {
            self.rows() as int
        } else {
            1
        }
    }

    /// What a key press does to the table state.
    pub open spec fn key_effect(self, before: App, key: KeyCode) -> bool {
        let page = before.page_rows();
        match key {
            KeyCode::Char(c) => if c == 'q' {
                self.quit_from(before)
            } else {
                self.unchanged_from(before)
            },
            KeyCode::Esc => self.quit_from(before),
            KeyCode::Up => self.moved_by(before, true, 1),
            KeyCode::Down => self.moved_by(before, false, 1),
            KeyCode::PageUp => if page <= isize::MAX {
                self.moved_by(before, true, page)
            } else {
                self.moved_by(before, false, usize::MAX + 1 - page)
            },
            KeyCode::PageDown => if page <= isize::MAX {
                self.moved_by(before, false, page)
            } else {
                self.moved_by(before, true, usize::MAX + 1 - page)
            },
            KeyCode::Home => self.moved_to(before, 0),
            KeyCode::End => self.moved_to(
                before,
                if before.visible().len() > 0 {
                    before.visible().len() - 1
                } else {
                    0
                },
            ),
            KeyCode::Left => {
                &&& self.keeps_rows_of(before)
                &&& self.keeps_view_of(before)
                &&& self.selection() == before.selection()
                &&& self.offset() == before.offset()
                &&& self.command_offset() == if before.command_offset() > 0 {
                    (before.command_offset() - 1) as u16
                } else {
                    0
                }
            },
            KeyCode::Right => {
                &&& self.keeps_rows_of(before)
                &&& self.keeps_view_of(before)
                &&& self.selection() == before.selection()
                &&& self.offset() == before.offset()
                &&& self.command_offset() == min_u16(
                    if before.command_offset() < u16::MAX {
                        (before.command_offset() + 1) as u16
                    } else {
                        u16::MAX
                    },
                    before.command_offset_limit(),
                )
            },
            KeyCode::Enter | KeyCode::Other => self.unchanged_from(before),
        }
    }

    /// `self` is `before` with a quit requested and nothing else changed.
    pub open spec fn quit_from(self, before: App) -> bool {
        &&& self.quitting()
        &&& self.keeps_rows_of(before)
        &&& self.keeps_position_of(before)
        &&& self.rows() == before.rows()
        &&& self.command_viewport() == before.command_viewport()
    }

    /// Whether the selected row, if any, lies inside the table viewport.
    pub open spec fn shows_selection(self) -> bool {
        self.rows() > 0 ==> match self.selected_position() {
            Some(index) => self.offset() <= index < self.offset() + self.rows(),
            None => true,
        }
    }

    /// `self` is `before` after the visible rows changed and the selection
    /// was reconciled with them, `previous` being the position the selected
    /// process had before the change.
    pub open spec fn reconciled_from(self, before: App, previous: Option<int>) -> bool {
        let rows = self.visible();
        &&& self.quitting() == before.quitting()
        &&& self.rows() == before.rows()
        &&& self.command_viewport() == before.command_viewport()
        &&& self.selection() == reconciled_selection(rows, before.selection(), previous)
        &&& self.offset() == offset_showing(
            if rows.len() == 0 {
                0
            } else {
                before.offset()
            },
            rows.len() as int,
            before.rows(),
            self.selected_position(),
        )
        &&& self.command_offset() == min_u16(
            if rows.len() == 0 || !keeps_selection(rows, before.selection()) {
                0
            } else {
                before.command_offset()
            },
            self.command_offset_limit(),
        )
    }
}

/// The characters of the lowercase form of `text`.
fn lowered_chars(text: &str) -> (chars: Vec<char>)
    ensures
        chars@ == unicode_lowercase(text@),
        text@.len() == 0 ==> chars@.len() == 0,
{
    let lowered = to_lowercase(text);
    chars_of(lowered.as_str())
}

fn sign_of(a: i64, b: i64) -> (order: i8)
    ensures
        order == sign(a as int, b as int),
{
    if a < b {
        -1
    } else if a > b {
        1
    } else {
        0
    }
}

fn sign_of_unsigned(a: u64, b: u64) -> (order: i8)
    ensures
        order == sign(a as int, b as int),
{
    if a < b {
        -1
    } else if a > b {
        1
    } else {
        0
    }
}

/// The lowercase names of `processes` (as characters) describe them.
pub open spec fn lowered_names(processes: Seq<ProcessSnapshot>, names: Seq<Vec<char>>) -> bool {
    &&& names.len() == processes.len()
    &&& forall|i: int|
        0 <= i < processes.len() ==> (#[trigger] names[i])@ == unicode_lowercase(processes[i].name@)
}

/// Compares two processes in the table order.
fn compare_processes(
    processes: &Vec<ProcessSnapshot>,
    names: &Vec<Vec<char>>,
    a: usize,
    b: usize,
    sort: SortSpec,
) -> (order: i8)
    requires
        a < processes@.len(),
        b < processes@.len(),
        lowered_names(processes@, names@),
    ensures
        order == process_order(processes@[a as int], processes@[b as int], sort),
{
    let left = &processes[a];
    let right = &processes[b];
    let by_column: i8 = match sort.column {
        SortColumn::Pid => sign_of_unsigned(left.pid as u64, right.pid as u64),
        SortColumn::Name => compare_chars(&names[a], &names[b]),
        SortColumn::CpuPercent => sign_of(
            left.cpu_percent.total_order_key(),
            right.cpu_percent.total_order_key(),
        ),
        SortColumn::Memory => sign_of_unsigned(left.memory_bytes, right.memory_bytes),
    };
    let by_column: i8 = match sort.direction {
        SortDirection::Ascending => by_column,
        SortDirection::Descending => -by_column,
    };
    if by_column != 0 {
        by_column
    } else {
        sign_of_unsigned(left.pid as u64, right.pid as u64)
    }
}

/// Whether a process passes a lowercased filter.
fn passes_filter(process: &ProcessSnapshot, name: &Vec<char>, lowered_filter: &Vec<char>) -> (passes:
    bool)
    requires
        name@ == unicode_lowercase(process.name@),
    ensures
        passes == matches_filter(*process, lowered_filter@),
{
    if lowered_filter.len() == 0 || contains_chars(name, lowered_filter) {
        return true;
    }
    match &process.command_line {
        CommandLine::Present(command_line) => {
            let lowered = lowered_chars(command_line.as_str());
            contains_chars(&lowered, lowered_filter)
        },
        _ => false,
    }
}

/// Stably sorts `indices` (into `processes`) by the table order.
fn sort_indices(
    processes: &Vec<ProcessSnapshot>,
    names: &Vec<Vec<char>>,
    indices: &Vec<usize>,
    sort: SortSpec,
) -> (order: Vec<usize>)
    requires
        lowered_names(processes@, names@),
        forall|i: int| 0 <= i < indices@.len() ==> indices@[i] < processes@.len(),
    ensures
        order@ == sorted_indices(processes@, indices@, sort),
{
    let mut order: Vec<usize> = Vec::new();
    let mut k: usize = 0;
    while k < indices.len()
        invariant
            k <= indices@.len(),
            lowered_names(processes@, names@),
            forall|i: int| 0 <= i < indices@.len() ==> indices@[i] < processes@.len(),
            order@ == sorted_indices(processes@, indices@.take(k as int), sort),
            forall|i: int| 0 <= i < order@.len() ==> order@[i] < processes@.len(),
        decreases indices@.len() - k,
    {
        let item = indices[k];
        let ghost before = order@;
        let mut position: usize = 0;
        let mut found = false;
        while !found && position < order.len()
            invariant
                position <= order@.len(),
                order@ == before,
                item < processes@.len(),
                lowered_names(processes@, names@),
                forall|i: int| 0 <= i < order@.len() ==> order@[i] < processes@.len(),
                insertion_point(processes@, before, item, sort, 0) == if found {
                    position as int
                } else {
                    insertion_point(processes@, before, item, sort, position as int)
                },
            decreases order@.len() - position, if found { 0int } else { 1int },
        {
            if compare_processes(processes, names, order[position], item, sort) > 0 {
                found = true;
            } else {
                position = position + 1;
            }
        }
        order.insert(position, item);
        proof {
            let taken = indices@.take(k + 1);
            assert(taken.drop_last() =~= indices@.take(k as int));
            assert(taken.last() == item);
            assert(forall|i: int| 0 <= i < order@.len() ==> order@[i] < processes@.len()) by {
                assert forall|i: int| 0 <= i < order@.len() implies order@[i] < processes@.len() by {
                    if i < position {
                        assert(order@[i] == before[i]);
                    } else if i > position {
                        assert(order@[i] == before[i - 1]);
                    }
                }
            }
        }
        k = k + 1;
    }
    assert(indices@.take(k as int) =~= indices@);
    order
}

impl App {
    pub fn new() -> (app: Self)
        ensures
            !app.quitting(),
            app.current() is None,
            app.selection() is None,
            app.offset() == 0,
            app.rows() == 0,
            app.command_offset() == 0,
            app.command_viewport() == 0,
            app.sort_spec() == (SortSpec {
                column: SortColumn::Pid,
                direction: SortDirection::Ascending,
            }),
            app.filter_text() == Seq::<char>::empty(),
            app.wf(),
    {
        let app = App {
            should_quit: false,
            snapshot: None,
            selected_pid: None,
            vertical_offset: 0,
            viewport_rows: 0,
            command_line_offset_cells: 0,
            command_line_viewport_cells: 0,
            sort: SortSpec { column: SortColumn::Pid, direction: SortDirection::Ascending },
            filter: String::new(),
        };
        proof {
            lemma_no_processes_no_rows(app.filter_text(), app.sort_spec());
        }
        app
    }

    pub fn should_quit(&self) -> (quit: bool)
        ensures
            quit == self.quitting(),
    {
        self.should_quit
    }

    pub fn snapshot(&self) -> (snapshot: Option<&Arc<Snapshot>>)
        ensures
            match snapshot {
                Some(s) => self.current() == Some(**s),
                None => self.current() is None,
            },
    {
        match &self.snapshot {
            Some(snapshot) => Some(snapshot),
            None => None,
        }
    }

    pub fn selected_pid(&self) -> (pid: Option<u32>)
        ensures
            pid == self.selection(),
    {
        self.selected_pid
    }

    pub fn vertical_offset(&self) -> (offset: usize)
        ensures
            offset == self.offset(),
    {
        self.vertical_offset
    }

    pub fn command_line_offset_cells(&self) -> (offset: u16)
        ensures
            offset == self.command_offset(),
    {
        self.command_line_offset_cells
    }

    pub fn sort(&self) -> (sort: SortSpec)
        ensures
            sort == self.sort_spec(),
    {
        self.sort
    }

    pub fn filter(&self) -> (filter: &str)
        ensures
            filter@ == self.filter_text(),
    {
        self.filter.as_str()
    }

    /// The processes of the current snapshot, when there is one.
    fn process_list(&self) -> (list: Option<&Vec<ProcessSnapshot>>)
        ensures
            match list {
                Some(list) => list@ == self.processes(),
                None => self.processes() == Seq::<ProcessSnapshot>::empty(),
            },
    {
        match &self.snapshot {
            Some(snapshot) => Some(&snapshot.processes.value),
            None => None,
        }
    }

    /// The snapshot indices of the visible processes, in table order.
    fn visible_indices(&self) -> (order: Vec<usize>)
        ensures
            order@ == visible_order(self.processes(), self.filter_text(), self.sort_spec()),
            forall|i: int| 0 <= i < order@.len() ==> order@[i] < self.processes().len(),
            self.filter_text().len() == 0 ==> forall|i: int|
                0 <= i < self.processes().len() ==> #[trigger] order@.contains(i as usize),
    {
        let processes = match self.process_list() {
            Some(processes) => processes,
            None => {
                proof {
                    lemma_no_processes_no_rows(self.filter_text(), self.sort_spec());
                }
                return Vec::new();
            },
        };
        let filter = lowered_chars(self.filter.as_str());
        let mut names: Vec<Vec<char>> = Vec::new();
        let mut matching: Vec<usize> = Vec::new();
        let mut i: usize = 0;
        while i < processes.len()
            invariant
                i <= processes@.len(),
                filter@ == unicode_lowercase(self.filter_text()),
                names@.len() == i,
                forall|j: int|
                    0 <= j < i ==> (#[trigger] names@[j])@ == unicode_lowercase(processes@[j].name@),
                matching@ == matching_indices(processes@, filter@, i as int),
                forall|j: int| 0 <= j < matching@.len() ==> matching@[j] < i,
            decreases processes@.len() - i,
        {
            let name = lowered_chars(processes[i].name.as_str());
            if passes_filter(&processes[i], &name, &filter) {
                matching.push(i);
            }
            names.push(name);
            i = i + 1;
        }
        let order = sort_indices(processes, &names, &matching, self.sort);
        proof {
            if self.filter_text().len() == 0 {
                lemma_visible_rows_are_the_matching_processes(
                    processes@,
                    self.filter_text(),
                    self.sort_spec(),
                );
                assert forall|i: int| 0 <= i < self.processes().len() implies #[trigger] order@.contains(
                    i as usize,
                ) by {
                    assert(matches_filter(processes@[i], unicode_lowercase(self.filter_text())));
                }
            }
            lemma_sorted_indices_bounded(processes@, matching@, self.sort_spec());
            assert forall|j: int| 0 <= j < order@.len() implies order@[j] < self.processes().len() by {
                assert(matching@.contains(order@[j]));
            }
        }
        order
    }

    /// Returns processes after applying the current filter and sort settings.
    pub fn visible_processes(&self) -> (rows: Vec<&ProcessSnapshot>)
        ensures
            rows@.len() == self.visible().len(),
            forall|i: int| 0 <= i < rows@.len() ==> *rows@[i] == self.visible()[i],
            self.filter_text().len() == 0 ==> forall|i: int|
                0 <= i < self.processes().len() ==> #[trigger] self.visible().contains(
                    self.processes()[i],
                ),
    {
        let order = self.visible_indices();
        proof {
            lemma_visible_len(*self);
            if self.filter_text().len() == 0 {
                assert forall|i: int| 0 <= i < self.processes().len() implies #[trigger] self.visible().contains(
                    self.processes()[i],
                ) by {
                    assert(order@.contains(i as usize));
                    let k = choose|k: int| 0 <= k < order@.len() && order@[k] == i as usize;
                    assert(self.visible()[k] == self.processes()[i]);
                }
            }
        }
        let mut rows: Vec<&ProcessSnapshot> = Vec::new();
        let processes = match self.process_list() {
            Some(processes) => processes,
            None => return rows,
        };
        let mut j: usize = 0;
        while j < order.len()
            invariant
                j <= order@.len(),
                processes@ == self.processes(),
                order@ == visible_order(self.processes(), self.filter_text(), self.sort_spec()),
                forall|i: int| 0 <= i < order@.len() ==> order@[i] < processes@.len(),
                rows@.len() == j,
                forall|i: int| 0 <= i < j ==> *rows@[i] == self.visible()[i],
            decreases order@.len() - j,
        {
            rows.push(&processes[order[j]]);
            j = j + 1;
        }
        rows
    }

    /// The position of the selected process among the visible ones.
    fn selected_index(&self) -> (index: Option<usize>)
        ensures
            match index {
                Some(i) => self.selected_position() == Some(i as int),
                None => self.selected_position() is None,
            },
    {
        let pid = match self.selected_pid {
            Some(pid) => pid,
            None => return None,
        };
        let rows = self.visible_processes();
        let mut j: usize = 0;
        while j < rows.len()
            invariant
                j <= rows@.len(),
                rows@.len() == self.visible().len(),
                forall|i: int| 0 <= i < rows@.len() ==> *rows@[i] == self.visible()[i],
                self.selection() == Some(pid),
                pid_position(self.visible(), pid) == pid_position_from(self.visible(), pid, j as int),
            decreases rows@.len() - j,
        {
            if rows[j].pid == pid {
                return Some(j);
            }
            j = j + 1;
        }
        None
    }
}

/// Without processes nothing is visible.
proof fn lemma_no_processes_no_rows(filter: Seq<char>, sort: SortSpec)
    ensures
        visible_order(Seq::<ProcessSnapshot>::empty(), filter, sort) == Seq::<usize>::empty(),
        visible_of(Seq::<ProcessSnapshot>::empty(), filter, sort) == Seq::<ProcessSnapshot>::empty(),
{
    assert(visible_of(Seq::<ProcessSnapshot>::empty(), filter, sort) =~= Seq::<ProcessSnapshot>::empty());
}

/// Sorting keeps every index it was given and adds none.
proof fn lemma_sorted_indices_bounded(processes: Seq<ProcessSnapshot>, indices: Seq<usize>, sort: SortSpec)
    ensures
        sorted_indices(processes, indices, sort).len() == indices.len(),
        forall|i: int|
            0 <= i < sorted_indices(processes, indices, sort).len() ==> #[trigger] indices.contains(
                sorted_indices(processes, indices, sort)[i],
            ),
    decreases indices.len(),
{
    if indices.len() > 0 {
        let rest = sorted_indices(processes, indices.drop_last(), sort);
        lemma_sorted_indices_bounded(processes, indices.drop_last(), sort);
        lemma_insertion_point_bounded(processes, rest, indices.last(), sort, 0);
        let position = insertion_point(processes, rest, indices.last(), sort, 0);
        let result = rest.insert(position, indices.last());
        assert forall|i: int| 0 <= i < result.len() implies #[trigger] indices.contains(result[i]) by {
            if i < position {
                assert(result[i] == rest[i]);
                assert(indices.drop_last().contains(rest[i]));
                let k = choose|k: int| 0 <= k < indices.drop_last().len() && indices.drop_last()[k] == rest[i];
                assert(indices[k] == rest[i]);
            } else if i == position {
                assert(indices[indices.len() - 1] == result[i]);
            } else {
                assert(result[i] == rest[i - 1]);
                assert(indices.drop_last().contains(rest[i - 1]));
                let k = choose|k: int| 0 <= k < indices.drop_last().len() && indices.drop_last()[k] == rest[i - 1];
                assert(indices[k] == rest[i - 1]);
            }
        }
    }
}

proof fn lemma_insertion_point_bounded(
    processes: Seq<ProcessSnapshot>,
    order: Seq<usize>,
    item: usize,
    sort: SortSpec,
    from: int,
)
    requires
        0 <= from <= order.len(),
    ensures
        from <= insertion_point(processes, order, item, sort, from) <= order.len(),
    decreases order.len() - from,
{
    if from < order.len() {
        lemma_insertion_point_bounded(processes, order, item, sort, from + 1);
    }
}

/// Each sort column compares processes by a total preorder.
proof fn lemma_column_order_laws(
    a: ProcessSnapshot,
    b: ProcessSnapshot,
    c: ProcessSnapshot,
    column: SortColumn,
)
    ensures
        column_order(a, b, column) == -column_order(b, a, column),
        column_order(a, b, column) <= 0 && column_order(b, c, column) <= 0 ==> column_order(
            a,
            c,
            column,
        ) <= 0,
        column_order(a, b, column) < 0 && column_order(b, c, column) <= 0 ==> column_order(
            a,
            c,
            column,
        ) < 0,
        column_order(a, b, column) <= 0 && column_order(b, c, column) < 0 ==> column_order(
            a,
            c,
            column,
        ) < 0,
        column_order(a, b, column) == 0 && column_order(b, c, column) == 0 ==> column_order(
            a,
            c,
            column,
        ) == 0,
{
    if column == SortColumn::Name {
        let x = unicode_lowercase(a.name@);
        let y = unicode_lowercase(b.name@);
        let z = unicode_lowercase(c.name@);
        lemma_compare_text_total_order(x, y, z);
        lemma_compare_text_total_order(x, z, y);
        lemma_compare_text_total_order(y, z, x);
        lemma_compare_text_total_order(z, y, x);
    }
}

/// The table order is a total order on PIDs refined by the sort column: it
/// is antisymmetric and transitive, so sorting by it is well defined.
pub proof fn lemma_process_order_is_a_total_preorder(
    a: ProcessSnapshot,
    b: ProcessSnapshot,
    c: ProcessSnapshot,
    sort: SortSpec,
)
    ensures
        process_order(a, b, sort) == -process_order(b, a, sort),
        process_order(a, b, sort) <= 0 && process_order(b, c, sort) <= 0 ==> process_order(
            a,
            c,
            sort,
        ) <= 0,
        process_order(a, b, sort) == 0 <==> a.pid == b.pid && column_order(a, b, sort.column)
            == 0,
{
    lemma_column_order_laws(a, b, c, sort.column);
    lemma_column_order_laws(c, b, a, sort.column);
    lemma_column_order_laws(b, a, c, sort.column);
    lemma_column_order_laws(a, c, b, sort.column);
}

/// Whether `order` lists processes in non-decreasing table order.
pub open spec fn in_table_order(
    processes: Seq<ProcessSnapshot>,
    order: Seq<usize>,
    sort: SortSpec,
) -> bool {
    forall|i: int, j: int|
        0 <= i < j < order.len() ==> process_order(
            processes[#[trigger] order[i] as int],
            processes[#[trigger] order[j] as int],
            sort,
        ) <= 0
}

proof fn lemma_insertion_point_after_smaller(
    processes: Seq<ProcessSnapshot>,
    order: Seq<usize>,
    item: usize,
    sort: SortSpec,
    from: int,
)
    requires
        0 <= from <= order.len(),
    ensures
        forall|i: int|
            from <= i < insertion_point(processes, order, item, sort, from) ==> process_order(
                processes[#[trigger] order[i] as int],
                processes[item as int],
                sort,
            ) <= 0,
        insertion_point(processes, order, item, sort, from) < order.len() ==> process_order(
            processes[order[insertion_point(processes, order, item, sort, from)] as int],
            processes[item as int],
            sort,
        ) > 0,
    decreases order.len() - from,
{
    if from < order.len() {
        lemma_insertion_point_after_smaller(processes, order, item, sort, from + 1);
    }
}

/// Stable insertion keeps the table order.
proof fn lemma_sorted_indices_in_order(
    processes: Seq<ProcessSnapshot>,
    indices: Seq<usize>,
    sort: SortSpec,
)
    ensures
        in_table_order(processes, sorted_indices(processes, indices, sort), sort),
    decreases indices.len(),
{
    if indices.len() > 0 {
        let rest = sorted_indices(processes, indices.drop_last(), sort);
        let item = indices.last();
        lemma_sorted_indices_in_order(processes, indices.drop_last(), sort);
        lemma_insertion_point_bounded(processes, rest, item, sort, 0);
        lemma_insertion_point_after_smaller(processes, rest, item, sort, 0);
        let p = insertion_point(processes, rest, item, sort, 0);
        let result = rest.insert(p, item);
        assert(result == sorted_indices(processes, indices, sort));
        let x = processes[item as int];
        assert forall|i: int, j: int| 0 <= i < j < result.len() implies process_order(
            processes[#[trigger] result[i] as int],
            processes[#[trigger] result[j] as int],
            sort,
        ) <= 0 by {
            if j < p {
                assert(result[i] == rest[i] && result[j] == rest[j]);
            } else if j == p {
                assert(result[i] == rest[i]);
            } else if i > p {
                assert(result[i] == rest[i - 1] && result[j] == rest[j - 1]);
            } else if i == p {
                let first = processes[rest[p] as int];
                let other = processes[rest[j - 1] as int];
                assert(result[j] == rest[j - 1]);
                lemma_process_order_is_a_total_preorder(x, first, other, sort);
                lemma_process_order_is_a_total_preorder(first, x, other, sort);
                if j - 1 > p {
                    assert(process_order(first, other, sort) <= 0);
                }
            } else {
                let left = processes[rest[i] as int];
                let right = processes[rest[j - 1] as int];
                let first = processes[rest[p] as int];
                assert(result[i] == rest[i] && result[j] == rest[j - 1]);
                assert(process_order(left, x, sort) <= 0);
                lemma_process_order_is_a_total_preorder(x, first, right, sort);
                lemma_process_order_is_a_total_preorder(first, x, right, sort);
                if j - 1 > p {
                    assert(process_order(first, right, sort) <= 0);
                }
                lemma_process_order_is_a_total_preorder(left, x, right, sort);
            }
        }
    }
}

proof fn lemma_matching_indices(processes: Seq<ProcessSnapshot>, lowered_filter: Seq<char>, n: int)
    requires
        0 <= n <= processes.len(),
        processes.len() <= usize::MAX,
    ensures
        forall|k: int|
            0 <= k < matching_indices(processes, lowered_filter, n).len() ==> #[trigger] matching_indices(
                processes,
                lowered_filter,
                n,
            )[k] < n,
        forall|i: int, j: int|
            0 <= i < j < matching_indices(processes, lowered_filter, n).len() ==> #[trigger] matching_indices(
                processes,
                lowered_filter,
                n,
            )[i] < #[trigger] matching_indices(processes, lowered_filter, n)[j],
        forall|x: usize|
            #[trigger] matching_indices(processes, lowered_filter, n).contains(x) <==> (x < n
                && matches_filter(processes[x as int], lowered_filter)),
    decreases n,
{
    if n > 0 {
        lemma_matching_indices(processes, lowered_filter, n - 1);
        let rest = matching_indices(processes, lowered_filter, n - 1);
        let m = matching_indices(processes, lowered_filter, n);
        let last = (n - 1) as usize;
        if matches_filter(processes[n - 1], lowered_filter) {
            assert(m == rest.push(last));
            assert forall|i: int, j: int| 0 <= i < j < m.len() implies #[trigger] m[i] < #[trigger] m[j] by {
                if j < rest.len() {
                    assert(m[i] == rest[i] && m[j] == rest[j]);
                } else {
                    assert(m[i] == rest[i]);
                    assert(m[j] == last);
                    assert(rest[i] < n - 1);
                }
            }
            assert forall|x: usize| #[trigger] m.contains(x) <==> (x < n && matches_filter(
                processes[x as int],
                lowered_filter,
            )) by {
                if m.contains(x) {
                    let k = choose|k: int| 0 <= k < m.len() && m[k] == x;
                    if k < rest.len() {
                        assert(m[k] == rest[k]);
                        assert(rest.contains(x));
                    }
                }
                if x < n && matches_filter(processes[x as int], lowered_filter) {
                    if x < n - 1 {
                        assert(rest.contains(x));
                        let k = choose|k: int| 0 <= k < rest.len() && rest[k] == x;
                        assert(m[k] == x);
                    } else {
                        assert(m[m.len() - 1] == x);
                    }
                }
            }
        } else {
            assert(m == rest);
            assert forall|x: usize| #[trigger] m.contains(x) <==> (x < n && matches_filter(
                processes[x as int],
                lowered_filter,
            )) by {
                if x < n && matches_filter(processes[x as int], lowered_filter) {
                    assert(x < n - 1);
                    assert(rest.contains(x));
                }
            }
        }
    }
}

/// Sorting rearranges the indices it was given, keeping each exactly as
/// often as it occurred.
proof fn lemma_sorted_indices_permutes(
    processes: Seq<ProcessSnapshot>,
    indices: Seq<usize>,
    sort: SortSpec,
)
    ensures
        forall|x: usize|
            #[trigger] sorted_indices(processes, indices, sort).contains(x) <==> indices.contains(x),
        indices.no_duplicates() ==> sorted_indices(processes, indices, sort).no_duplicates(),
    decreases indices.len(),
{
    if indices.len() > 0 {
        let init = indices.drop_last();
        let item = indices.last();
        let rest = sorted_indices(processes, init, sort);
        lemma_sorted_indices_permutes(processes, init, sort);
        lemma_insertion_point_bounded(processes, rest, item, sort, 0);
        let p = insertion_point(processes, rest, item, sort, 0);
        let result = rest.insert(p, item);
        assert(result == sorted_indices(processes, indices, sort));
        assert(indices =~= init.push(item));
        assert forall|x: usize| #[trigger] result.contains(x) <==> indices.contains(x) by {
            if result.contains(x) {
                let k = choose|k: int| 0 <= k < result.len() && result[k] == x;
                if k < p {
                    assert(result[k] == rest[k]);
                    assert(rest.contains(x));
                    let i = choose|i: int| 0 <= i < init.len() && init[i] == x;
                    assert(indices[i] == x);
                } else if k == p {
                    assert(indices[indices.len() - 1] == x);
                } else {
                    assert(result[k] == rest[k - 1]);
                    assert(rest.contains(x));
                    let i = choose|i: int| 0 <= i < init.len() && init[i] == x;
                    assert(indices[i] == x);
                }
            }
            if indices.contains(x) {
                let i = choose|i: int| 0 <= i < indices.len() && indices[i] == x;
                if i < indices.len() - 1 {
                    assert(init[i] == x);
                    assert(init.contains(x));
                    assert(rest.contains(x));
                    let k = choose|k: int| 0 <= k < rest.len() && rest[k] == x;
                    if k < p {
                        assert(result[k] == x);
                    } else {
                        assert(result[k + 1] == x);
                    }
                } else {
                    assert(result[p] == x);
                }
            }
        }
        if indices.no_duplicates() {
            assert(init.no_duplicates()) by {
                assert forall|i: int, j: int| 0 <= i < init.len() && 0 <= j < init.len() && i != j implies init[i] != init[j] by {
                    assert(init[i] == indices[i] && init[j] == indices[j]);
                }
            }
            assert(!init.contains(item)) by {
                if init.contains(item) {
                    let i = choose|i: int| 0 <= i < init.len() && init[i] == item;
                    assert(indices[i] == indices[indices.len() - 1]);
                }
            }
            assert(!rest.contains(item));
            assert forall|i: int, j: int| 0 <= i < result.len() && 0 <= j < result.len() && i != j implies result[i] != result[j] by {
                if i != p && j != p {
                    let a = if i < p { i } else { i - 1 };
                    let b = if j < p { j } else { j - 1 };
                    assert(result[i] == rest[a] && result[j] == rest[b]);
                } else if i == p {
                    let b = if j < p { j } else { j - 1 };
                    assert(result[j] == rest[b]);
                } else {
                    let a = if i < p { i } else { i - 1 };
                    assert(result[i] == rest[a]);
                }
            }
        }
    }
}

/// The process table lists every process of the snapshot that passes the
/// filter exactly once, and no other process.
pub proof fn lemma_visible_rows_are_the_matching_processes(
    processes: Seq<ProcessSnapshot>,
    filter: Seq<char>,
    sort: SortSpec,
)
    requires
        processes.len() <= usize::MAX,
    ensures
        visible_order(processes, filter, sort).no_duplicates(),
        forall|k: int|
            0 <= k < visible_order(processes, filter, sort).len() ==> #[trigger] visible_order(
                processes,
                filter,
                sort,
            )[k] < processes.len(),
        forall|i: int|
            0 <= i < processes.len() ==> (#[trigger] visible_order(processes, filter, sort).contains(
                i as usize,
            ) <==> matches_filter(processes[i], unicode_lowercase(filter))),
{
    let lowered = unicode_lowercase(filter);
    let matching = matching_indices(processes, lowered, processes.len() as int);
    let order = visible_order(processes, filter, sort);
    lemma_matching_indices(processes, lowered, processes.len() as int);
    lemma_sorted_indices_permutes(processes, matching, sort);
    assert(matching.no_duplicates()) by {
        assert forall|i: int, j: int| 0 <= i < matching.len() && 0 <= j < matching.len() && i != j implies matching[i] != matching[j] by {
            if i < j {
                assert(matching[i] < matching[j]);
            } else {
                assert(matching[j] < matching[i]);
            }
        }
    }
    assert forall|k: int| 0 <= k < order.len() implies #[trigger] order[k] < processes.len() by {
        assert(order.contains(order[k]));
        assert(matching.contains(order[k]));
    }
    assert forall|i: int| 0 <= i < processes.len() implies (#[trigger] order.contains(i as usize)
        <==> matches_filter(processes[i], lowered)) by {
        assert(matching.contains(i as usize) <==> matches_filter(processes[i], lowered));
    }
}

/// The process table lists its rows in table order: no row sorts after the
/// row below it.
pub proof fn lemma_visible_rows_are_sorted(
    processes: Seq<ProcessSnapshot>,
    filter: Seq<char>,
    sort: SortSpec,
)
    ensures
        forall|i: int, j: int|
            0 <= i < j < visible_of(processes, filter, sort).len() ==> process_order(
                #[trigger] visible_of(processes, filter, sort)[i],
                #[trigger] visible_of(processes, filter, sort)[j],
                sort,
            ) <= 0,
{
    let lowered = unicode_lowercase(filter);
    let matching = matching_indices(processes, lowered, processes.len() as int);
    lemma_sorted_indices_in_order(processes, matching, sort);
    let order = visible_order(processes, filter, sort);
    let rows = visible_of(processes, filter, sort);
    assert forall|i: int, j: int| 0 <= i < j < rows.len() implies process_order(
        #[trigger] rows[i],
        #[trigger] rows[j],
        sort,
    ) <= 0 by {
        assert(rows[i] == processes[order[i] as int]);
        assert(rows[j] == processes[order[j] as int]);
    }
}

/// Each sort column orders the table by what it names. Ascending, a row
/// never has a larger PID, memory figure, CPU key (`f32::total_cmp` order)
/// or lowercased name than a row below it; descending, never a smaller one.
/// Rows that tie on the column are listed by ascending PID.
pub proof fn lemma_visible_rows_follow_the_sort_column(
    processes: Seq<ProcessSnapshot>,
    filter: Seq<char>,
    sort: SortSpec,
)
    ensures
        forall|i: int, j: int|
            #![trigger visible_of(processes, filter, sort)[i], visible_of(processes, filter, sort)[j]]
            0 <= i < j < visible_of(processes, filter, sort).len() ==> {
                let a = visible_of(processes, filter, sort)[i];
                let b = visible_of(processes, filter, sort)[j];
                let ascending = sort.direction == SortDirection::Ascending;
                &&& sort.column == SortColumn::Memory ==> if ascending {
                    a.memory_bytes <= b.memory_bytes
                } else {
                    a.memory_bytes >= b.memory_bytes
                }
                &&& sort.column == SortColumn::Memory && a.memory_bytes == b.memory_bytes ==> a.pid
                    <= b.pid
                &&& sort.column == SortColumn::Pid ==> if ascending {
                    a.pid <= b.pid
                } else {
                    a.pid >= b.pid
                }
                &&& sort.column == SortColumn::CpuPercent ==> if ascending {
                    total_order_key(a.cpu_percent) <= total_order_key(b.cpu_percent)
                } else {
                    total_order_key(a.cpu_percent) >= total_order_key(b.cpu_percent)
                }
                &&& sort.column == SortColumn::CpuPercent && a.cpu_percent.bits == b.cpu_percent.bits
                    ==> a.pid <= b.pid
                &&& sort.column == SortColumn::Name ==> if ascending {
                    compare_text(unicode_lowercase(a.name@), unicode_lowercase(b.name@)) <= 0
                } else {
                    compare_text(unicode_lowercase(a.name@), unicode_lowercase(b.name@)) >= 0
                }
                &&& sort.column == SortColumn::Name && unicode_lowercase(a.name@)
                    == unicode_lowercase(b.name@) ==> a.pid <= b.pid
            },
{
    let rows = visible_of(processes, filter, sort);
    lemma_visible_rows_are_sorted(processes, filter, sort);
    assert forall|i: int, j: int|
        #![trigger rows[i], rows[j]]
        0 <= i < j < rows.len() implies {
        let a = rows[i];
        let b = rows[j];
        let ascending = sort.direction == SortDirection::Ascending;
        &&& sort.column == SortColumn::Memory ==> if ascending {
            a.memory_bytes <= b.memory_bytes
        } else {
            a.memory_bytes >= b.memory_bytes
        }
        &&& sort.column == SortColumn::Memory && a.memory_bytes == b.memory_bytes ==> a.pid <= b.pid
        &&& sort.column == SortColumn::Pid ==> if ascending {
            a.pid <= b.pid
        } else {
            a.pid >= b.pid
        }
        &&& sort.column == SortColumn::CpuPercent ==> if ascending {
            total_order_key(a.cpu_percent) <= total_order_key(b.cpu_percent)
        } else {
            total_order_key(a.cpu_percent) >= total_order_key(b.cpu_percent)
        }
        &&& sort.column == SortColumn::CpuPercent && a.cpu_percent.bits == b.cpu_percent.bits ==> a.pid
            <= b.pid
        &&& sort.column == SortColumn::Name ==> if ascending {
            compare_text(unicode_lowercase(a.name@), unicode_lowercase(b.name@)) <= 0
        } else {
            compare_text(unicode_lowercase(a.name@), unicode_lowercase(b.name@)) >= 0
        }
        &&& sort.column == SortColumn::Name && unicode_lowercase(a.name@) == unicode_lowercase(b.name@)
            ==> a.pid <= b.pid
    } by {
        let a = rows[i];
        let b = rows[j];
        assert(process_order(a, b, sort) <= 0);
        lemma_compare_text_total_order(
            unicode_lowercase(a.name@),
            unicode_lowercase(b.name@),
            unicode_lowercase(b.name@),
        );
        lemma_compare_text_total_order(
            unicode_lowercase(a.name@),
            unicode_lowercase(a.name@),
            unicode_lowercase(b.name@),
        );
    }
}

/// The filter is a case-insensitive substring search: a process is listed
/// exactly when the filter is empty or its lowercased form occurs, as a
/// contiguous run of characters, in the lowercased name or in the lowercased
/// command line (when the command line was read).
pub proof fn lemma_filter_is_a_substring_search(
    processes: Seq<ProcessSnapshot>,
    filter: Seq<char>,
    sort: SortSpec,
)
    requires
        processes.len() <= usize::MAX,
    ensures
        forall|i: int|
            0 <= i < processes.len() ==> (#[trigger] visible_order(processes, filter, sort).contains(
                i as usize,
            ) <==> {
                let f = unicode_lowercase(filter);
                let name = unicode_lowercase(processes[i].name@);
                ||| f.len() == 0
                ||| exists|s: int| #[trigger] agrees_from(name, f, s)
                ||| processes[i].command_line matches CommandLine::Present(c) && exists|s: int| #[trigger] agrees_from(unicode_lowercase(c@), f, s)
            }),
{
    let f = unicode_lowercase(filter);
    lemma_visible_rows_are_the_matching_processes(processes, filter, sort);
    assert forall|i: int| 0 <= i < processes.len() implies (#[trigger] visible_order(
        processes,
        filter,
        sort,
    ).contains(i as usize) <==> {
        let name = unicode_lowercase(processes[i].name@);
        ||| f.len() == 0
        ||| exists|s: int| #[trigger] agrees_from(name, f, s)
        ||| processes[i].command_line matches CommandLine::Present(c) && exists|s: int| #[trigger] agrees_from(unicode_lowercase(c@), f, s)
    }) by {
        let name = unicode_lowercase(processes[i].name@);
        lemma_run_is_elementwise(name, f);
        match processes[i].command_line {
            CommandLine::Present(c) => lemma_run_is_elementwise(unicode_lowercase(c@), f),
            _ => {},
        }
    }
}

/// Whether `needle` fits inside `text` from `start` on and every one of its
/// characters equals the character of `text` at the same offset.
pub open spec fn agrees_from(text: Seq<char>, needle: Seq<char>, start: int) -> bool {
    &&& 0 <= start
    &&& start + needle.len() <= text.len()
    &&& forall|k: int| 0 <= k < needle.len() ==> #[trigger] text[start + k] == needle[k]
}

/// A contiguous run is a start position from which the characters agree.
proof fn lemma_run_is_elementwise(text: Seq<char>, needle: Seq<char>)
    ensures
        contains_run(text, needle) <==> exists|s: int| #[trigger] agrees_from(text, needle, s),
{
    if contains_run(text, needle) {
        let s = choose|s: int|
            0 <= s && s + needle.len() <= text.len() && #[trigger] text.subrange(s, s + needle.len())
                == needle;
        assert forall|k: int| 0 <= k < needle.len() implies #[trigger] text[s + k] == needle[k] by {
            assert(text.subrange(s, s + needle.len())[k] == text[s + k]);
        }
        assert(agrees_from(text, needle, s));
    }
    if exists|s: int| #[trigger] agrees_from(text, needle, s) {
        let s = choose|s: int| #[trigger] agrees_from(text, needle, s);
        assert forall|k: int| 0 <= k < needle.len() implies #[trigger] text.subrange(
            s,
            s + needle.len(),
        )[k] == needle[k] by {
            assert(text[s + k] == needle[k]);
        }
        assert(text.subrange(s, s + needle.len()) =~= needle);
    }
}

/// A position as an integer.
pub open spec fn as_position(index: Option<usize>) -> Option<int> {
    match index {
        Some(i) => Some(i as int),
        None => None,
    }
}

/// The first position of a PID lies inside the rows and holds that PID, and
/// it is at or before any position that holds the PID.
pub proof fn lemma_pid_position(rows: Seq<ProcessSnapshot>, pid: u32, from: int)
    requires
        0 <= from,
    ensures
        pid_position_from(rows, pid, from) matches Some(k) ==> from <= k < rows.len() && rows[k].pid
            == pid,
        forall|j: int|
            from <= j < rows.len() && #[trigger] rows[j].pid == pid ==> (pid_position_from(
                rows,
                pid,
                from,
            ) matches Some(k) && k <= j),
    decreases rows.len() - from,
{
    if from < rows.len() {
        lemma_pid_position(rows, pid, from + 1);
    }
}

/// Keeping the selection in view moves the viewport as little as possible:
/// from the old offset, lowered to the last full page, to the nearest offset
/// of a full page that shows the selected row; without a selection the
/// lowered offset stays.
pub proof fn lemma_offset_moves_least(offset: usize, count: int, rows: usize, selected: Option<int>)
    requires
        0 < count <= usize::MAX,
        rows > 0,
        selected matches Some(i) ==> 0 <= i < count,
    ensures
        ({
            let last_page = if count > rows { count - rows } else { 0 };
            let start = if offset <= last_page { offset as int } else { last_page };
            let chosen = offset_showing(offset, count, rows, selected) as int;
            &&& selected is None ==> chosen == start
            &&& selected matches Some(i) ==> forall|o: int|
                0 <= o <= last_page && o <= i < o + rows ==> #[trigger] (o - start) * (o - start)
                    >= (chosen - start) * (chosen - start)
        }),
{
    let last_page = if count > rows { count - rows } else { 0 };
    let start = if offset <= last_page { offset as int } else { last_page };
    let chosen = offset_showing(offset, count, rows, selected) as int;
    if let Some(i) = selected {
        assert forall|o: int| 0 <= o <= last_page && o <= i < o + rows implies #[trigger] (o - start)
            * (o - start) >= (chosen - start) * (chosen - start) by {
            if i < start {
                assert(chosen == i);
                assert(o <= i);
                assert((o - start) * (o - start) >= (chosen - start) * (chosen - start)) by (nonlinear_arith)
                    requires
                        o <= chosen,
                        chosen < start,
                ;
            } else if i >= start + rows {
                assert(chosen == i + 1 - rows);
                assert(o >= chosen);
                assert((o - start) * (o - start) >= (chosen - start) * (chosen - start)) by (nonlinear_arith)
                    requires
                        o >= chosen,
                        chosen > start,
                ;
            } else {
                assert(chosen == start);
                assert((o - start) * (o - start) >= 0) by (nonlinear_arith);
                assert((chosen - start) * (chosen - start) == 0) by (nonlinear_arith)
                    requires
                        chosen == start,
                ;
            }
        }
    }
}

/// The offset chosen to show a selection stays within the last full page and
/// shows the selected row.
pub proof fn lemma_offset_showing(offset: usize, count: int, rows: usize, selected: Option<int>)
    requires
        0 <= count <= usize::MAX,
        selected matches Some(i) ==> 0 <= i < count,
    ensures
        (count <= rows || rows == 0) ==> offset_showing(offset, count, rows, selected) == 0,
        count > rows ==> offset_showing(offset, count, rows, selected) <= count - rows,
        rows > 0 ==> (selected matches Some(i) ==> offset_showing(offset, count, rows, selected)
            <= i < offset_showing(offset, count, rows, selected) + rows),
{
}

impl App {
    /// Moves the viewport just enough to show the selected row.
    fn ensure_selected_row_is_visible(&mut self)
        ensures
            final(self).keeps_rows_of(*old(self)),
            final(self).keeps_view_of(*old(self)),
            final(self).selection() == old(self).selection(),
            final(self).command_offset() == old(self).command_offset(),
            final(self).offset() == offset_showing(
                old(self).offset(),
                old(self).visible().len() as int,
                old(self).rows(),
                old(self).selected_position(),
            ),
    {
        let process_count = self.visible_indices().len();
        if process_count == 0 || self.viewport_rows == 0 {
            self.vertical_offset = 0;
            return;
        }
        let maximum_offset = process_count.saturating_sub(self.viewport_rows);
        if self.vertical_offset > maximum_offset {
            self.vertical_offset = maximum_offset;
        }
        match self.selected_index() {
            Some(selected_index) => {
                proof {
                    lemma_pid_position(self.visible(), self.selection()->0, 0);
                }
                if selected_index < self.vertical_offset {
                    self.vertical_offset = selected_index;
                } else if selected_index >= self.vertical_offset + self.viewport_rows {
                    self.vertical_offset = selected_index + 1 - self.viewport_rows;
                }
            },
            None => {},
        }
    }

    /// The greatest command-line offset for the selected process.
    fn selected_command_line_maximum_offset(&self) -> (offset: u16)
        ensures
            offset == self.command_offset_limit(),
    {
        match self.selected_index() {
            Some(index) => {
                let rows = self.visible_processes();
                proof {
                    lemma_pid_position(self.visible(), self.selection()->0, 0);
                }
                let text = rows[index].command_line_display();
                maximum_scroll_offset(text.as_str(), self.command_line_viewport_cells)
            },
            None => 0,
        }
    }

    /// Lowers the command-line offset to its limit.
    fn clamp_command_line_offset(&mut self)
        ensures
            final(self).keeps_rows_of(*old(self)),
            final(self).keeps_view_of(*old(self)),
            final(self).selection() == old(self).selection(),
            final(self).offset() == old(self).offset(),
            final(self).command_offset() == min_u16(
                old(self).command_offset(),
                old(self).command_offset_limit(),
            ),
    {
        let maximum_offset = self.selected_command_line_maximum_offset();
        if self.command_line_offset_cells > maximum_offset {
            self.command_line_offset_cells = maximum_offset;
        }
    }

    /// Restores the selection invariant after the visible rows changed.
    fn reconcile_selection(&mut self, previous_index: Option<usize>)
        ensures
            final(self).keeps_rows_of(*old(self)),
            final(self).reconciled_from(*old(self), as_position(previous_index)),
    {
        let ghost rows = self.visible();
        let (next_selected_pid, reset_vertical_offset, reset_command_offset) = {
            let processes = self.visible_processes();
            if processes.len() == 0 {
                (None, true, true)
            } else {
                match self.selected_index() {
                    Some(_) => (self.selected_pid, false, false),
                    None => {
                        let wanted = match previous_index {
                            Some(index) => index,
                            None => 0,
                        };
                        let replacement_index = if wanted <= processes.len() - 1 {
                            wanted
                        } else {
                            processes.len() - 1
                        };
                        (Some(processes[replacement_index].pid), false, true)
                    },
                }
            }
        };
        self.selected_pid = next_selected_pid;
        if reset_vertical_offset {
            self.vertical_offset = 0;
        }
        if reset_command_offset {
            self.command_line_offset_cells = 0;
        }
        self.ensure_selected_row_is_visible();
        self.clamp_command_line_offset();
    }
}

/// After a reconciliation the table state is well formed and shows the
/// selected row.
proof fn lemma_reconciled_wf(after: App, before: App, previous: Option<int>)
    requires
        after.reconciled_from(before, previous),
        previous matches Some(i) ==> 0 <= i,
    ensures
        after.wf(),
        after.shows_selection(),
{
    let rows = after.visible();
    lemma_visible_len(after);
    if rows.len() > 0 {
        if !keeps_selection(rows, before.selection()) {
            let wanted = match previous {
                Some(index) => index,
                None => 0,
            };
            let index = if wanted <= rows.len() - 1 {
                wanted
            } else {
                rows.len() - 1
            };
            lemma_pid_position(rows, rows[index].pid, 0);
        } else {
            lemma_pid_position(rows, before.selection()->0, 0);
        }
        lemma_pid_position(rows, after.selection()->0, 0);
    }
    lemma_offset_showing(
        if rows.len() == 0 {
            0
        } else {
            before.offset()
        },
        rows.len() as int,
        before.rows(),
        after.selected_position(),
    );
}

/// The selected position, when there is one, is a visible row holding the
/// A refresh (new snapshot, filter or sort) keeps the selected process and
/// its command-line scroll while that process is still listed; the scroll is
/// only lowered as far as the new command line requires. When the selected
/// process is no longer listed, the row at its former position (the last
/// row when the table became shorter, the first when nothing was selected)
/// is selected instead and its command line starts unscrolled; an empty
/// table has no selection and no scroll.
pub proof fn lemma_refresh_keeps_a_surviving_selection(after: App, before: App, previous: Option<int>)
    requires
        after.reconciled_from(before, previous),
    ensures
        (before.selection() matches Some(pid) && exists|k: int|
            0 <= k < after.visible().len() && (#[trigger] after.visible()[k]).pid == pid) ==> {
            &&& after.selection() == before.selection()
            &&& after.command_offset() == if before.command_offset()
                <= after.command_offset_limit() {
                before.command_offset()
            } else {
                after.command_offset_limit()
            }
        },
        !(before.selection() matches Some(pid) && exists|k: int|
            0 <= k < after.visible().len() && (#[trigger] after.visible()[k]).pid == pid)
            ==> after.command_offset() == 0,
        after.visible().len() == 0 ==> after.selection() is None && after.offset() == 0,
        after.visible().len() > 0 && !(before.selection() matches Some(pid) && exists|k: int|
            0 <= k < after.visible().len() && (#[trigger] after.visible()[k]).pid == pid)
            ==> after.selection() == Some(
            after.visible()[match previous {
                Some(index) => if index <= after.visible().len() - 1 {
                    index
                } else {
                    after.visible().len() - 1
                },
                None => 0,
            }].pid,
        ),
{
    let rows = after.visible();
    match before.selection() {
        Some(pid) => {
            lemma_pid_position(rows, pid, 0);
            if exists|k: int| 0 <= k < rows.len() && (#[trigger] rows[k]).pid == pid {
                let k = choose|k: int| 0 <= k < rows.len() && (#[trigger] rows[k]).pid == pid;
                assert(keeps_selection(rows, before.selection()));
            } else {
                assert(!keeps_selection(rows, before.selection()));
            }
        },
        None => {},
    }
}

/// selected PID.
pub proof fn lemma_selected_position_in_range(app: App)
    ensures
        app.selected_position() matches Some(i) ==> 0 <= i < app.visible().len()
            && app.visible()[i].pid == app.selection()->0,
{
    if app.selection() is Some {
        lemma_pid_position(app.visible(), app.selection()->0, 0);
    }
}

/// The visible rows are no more than the processes, which fit in memory.
proof fn lemma_visible_len(app: App)
    ensures
        app.visible().len() <= app.processes().len() <= usize::MAX,
{
    let processes = app.processes();
    let matching = matching_indices(
        processes,
        unicode_lowercase(app.filter_text()),
        processes.len() as int,
    );
    lemma_sorted_indices_bounded(processes, matching, app.sort_spec());
    lemma_matching_len(processes, unicode_lowercase(app.filter_text()), processes.len() as int);
    match app.current() {
        Some(snapshot) => {
            assert(snapshot.processes.value.len() == snapshot.processes.value@.len());
        },
        None => {},
    }
}

proof fn lemma_matching_len(processes: Seq<ProcessSnapshot>, lowered_filter: Seq<char>, n: int)
    requires
        0 <= n,
    ensures
        matching_indices(processes, lowered_filter, n).len() <= n,
    decreases n,
{
    if n > 0 {
        lemma_matching_len(processes, lowered_filter, n - 1);
    }
}

impl App {
    pub fn set_vertical_offset(&mut self, offset: usize)
        ensures
            final(self).keeps_rows_of(*old(self)),
            final(self).keeps_view_of(*old(self)),
            final(self).selection() == old(self).selection(),
            final(self).command_offset() == old(self).command_offset(),
            final(self).offset() == offset_showing(
                offset,
                old(self).visible().len() as int,
                old(self).rows(),
                old(self).selected_position(),
            ),
            old(self).wf() ==> final(self).wf() && final(self).shows_selection(),
    {
        self.vertical_offset = offset;
        self.ensure_selected_row_is_visible();
        proof {
            self.lemma_repositioned(*old(self));
        }
    }

    pub fn set_viewport_rows(&mut self, viewport_rows: usize)
        ensures
            final(self).keeps_rows_of(*old(self)),
            final(self).quitting() == old(self).quitting(),
            final(self).command_viewport() == old(self).command_viewport(),
            final(self).rows() == viewport_rows,
            final(self).selection() == old(self).selection(),
            final(self).command_offset() == old(self).command_offset(),
            final(self).offset() == offset_showing(
                old(self).offset(),
                old(self).visible().len() as int,
                viewport_rows,
                old(self).selected_position(),
            ),
            old(self).wf() ==> final(self).wf() && final(self).shows_selection(),
    {
        self.viewport_rows = viewport_rows;
        self.ensure_selected_row_is_visible();
        proof {
            self.lemma_repositioned(*old(self));
        }
    }

    /// A state whose offset was chosen to show its selection, and whose
    /// selection and command-line offset are those of a well-formed `before`
    /// with the same rows, is well formed.
    proof fn lemma_repositioned(self, before: App)
        requires
            self.keeps_rows_of(before),
            self.selection() == before.selection(),
            self.command_offset() == before.command_offset(),
            self.command_viewport() == before.command_viewport(),
            self.offset() == offset_showing(
                self.offset(),
                self.visible().len() as int,
                self.rows(),
                self.selected_position(),
            ) || exists|o: usize|
                self.offset() == offset_showing(
                    o,
                    self.visible().len() as int,
                    self.rows(),
                    self.selected_position(),
                ),
        ensures
            before.wf() ==> self.wf() && self.shows_selection(),
    {
        lemma_visible_len(self);
        if before.wf() {
            if self.selection() is Some {
                lemma_pid_position(self.visible(), self.selection()->0, 0);
            }
            if self.offset() == offset_showing(
                self.offset(),
                self.visible().len() as int,
                self.rows(),
                self.selected_position(),
            ) {
                lemma_offset_showing(
                    self.offset(),
                    self.visible().len() as int,
                    self.rows(),
                    self.selected_position(),
                );
            } else {
                let o = choose|o: usize|
                    self.offset() == offset_showing(
                        o,
                        self.visible().len() as int,
                        self.rows(),
                        self.selected_position(),
                    );
                lemma_offset_showing(
                    o,
                    self.visible().len() as int,
                    self.rows(),
                    self.selected_position(),
                );
            }
        }
    }

    pub fn set_command_line_offset_cells(&mut self, offset: u16)
        ensures
            final(self).keeps_rows_of(*old(self)),
            final(self).keeps_view_of(*old(self)),
            final(self).selection() == old(self).selection(),
            final(self).offset() == old(self).offset(),
            final(self).command_offset() == min_u16(offset, old(self).command_offset_limit()),
            old(self).wf() ==> final(self).wf(),
    {
        self.command_line_offset_cells = offset;
        self.clamp_command_line_offset();
    }

    pub fn set_command_line_viewport_cells(&mut self, viewport_cells: u16)
        ensures
            final(self).keeps_rows_of(*old(self)),
            final(self).quitting() == old(self).quitting(),
            final(self).rows() == old(self).rows(),
            final(self).command_viewport() == viewport_cells,
            final(self).selection() == old(self).selection(),
            final(self).offset() == old(self).offset(),
            final(self).command_offset() == min_u16(
                old(self).command_offset(),
                command_limit(old(self).visible(), old(self).selection(), viewport_cells),
            ),
            old(self).wf() ==> final(self).wf(),
    {
        self.command_line_viewport_cells = viewport_cells;
        self.clamp_command_line_offset();
    }

    pub fn set_sort(&mut self, sort: SortSpec)
        ensures
            final(self).current() == old(self).current(),
            final(self).filter_text() == old(self).filter_text(),
            final(self).sort_spec() == sort,
            final(self).reconciled_from(*old(self), old(self).selected_position()),
            keeps_selection(final(self).visible(), old(self).selection()) ==> final(self).selection()
                == old(self).selection() && final(self).command_offset() == min_u16(
                old(self).command_offset(),
                final(self).command_offset_limit(),
            ),
            final(self).wf(),
            final(self).shows_selection(),
    {
        let previous_index = self.selected_index();
        self.sort = sort;
        self.reconcile_selection(previous_index);
        proof {
            lemma_selected_position_in_range(*old(self));
            lemma_reconciled_wf(*self, *old(self), old(self).selected_position());
        }
    }

    pub fn set_filter(&mut self, filter: &str)
        ensures
            final(self).current() == old(self).current(),
            final(self).sort_spec() == old(self).sort_spec(),
            final(self).filter_text() == filter@,
            final(self).reconciled_from(*old(self), old(self).selected_position()),
            keeps_selection(final(self).visible(), old(self).selection()) ==> final(self).selection()
                == old(self).selection() && final(self).command_offset() == min_u16(
                old(self).command_offset(),
                final(self).command_offset_limit(),
            ),
            final(self).wf(),
            final(self).shows_selection(),
    {
        let previous_index = self.selected_index();
        self.filter = filter.to_string();
        self.reconcile_selection(previous_index);
        proof {
            lemma_selected_position_in_range(*old(self));
            lemma_reconciled_wf(*self, *old(self), old(self).selected_position());
        }
    }

    /// Replaces the current immutable snapshot and preserves selection by PID
    /// whenever that process still exists in the new visible list.
    pub fn set_snapshot(&mut self, snapshot: Arc<Snapshot>)
        ensures
            final(self).current() == Some(*snapshot),
            final(self).sort_spec() == old(self).sort_spec(),
            final(self).filter_text() == old(self).filter_text(),
            final(self).reconciled_from(*old(self), old(self).selected_position()),
            keeps_selection(final(self).visible(), old(self).selection()) ==> final(self).selection()
                == old(self).selection() && final(self).command_offset() == min_u16(
                old(self).command_offset(),
                final(self).command_offset_limit(),
            ),
            final(self).wf(),
            final(self).shows_selection(),
    {
        let previous_index = self.selected_index();
        self.snapshot = Some(snapshot);
        self.reconcile_selection(previous_index);
        proof {
            lemma_selected_position_in_range(*old(self));
            lemma_reconciled_wf(*self, *old(self), old(self).selected_position());
        }
    }

    /// Selects a visible process by PID. Returns `false` when the PID is not
    /// available under the current snapshot, filter, and sort state.
    pub fn select_pid(&mut self, pid: u32) -> (selected: bool)
        ensures
            selected == (pid_position(old(self).visible(), pid) is Some),
            final(self).keeps_rows_of(*old(self)),
            final(self).keeps_view_of(*old(self)),
            final(self).offset() == old(self).offset(),
            selected ==> final(self).selection() == Some(pid) && final(self).command_offset() == 0,
            !selected ==> final(self).keeps_position_of(*old(self)),
            old(self).wf() ==> final(self).wf(),
    {
        let can_select = {
            let processes = self.visible_processes();
            let mut found = false;
            let mut j: usize = 0;
            while !found && j < processes.len()
                invariant
                    j <= processes@.len(),
                    processes@.len() == self.visible().len(),
                    forall|i: int| 0 <= i < processes@.len() ==> *processes@[i] == self.visible()[i],
                    found ==> pid_position(self.visible(), pid) is Some,
                    !found ==> pid_position(self.visible(), pid) == pid_position_from(
                        self.visible(),
                        pid,
                        j as int,
                    ),
                decreases processes@.len() - j, if found { 0int } else { 1int },
            {
                if processes[j].pid == pid {
                    found = true;
                } else {
                    j = j + 1;
                }
            }
            found
        };
        if can_select {
            self.selected_pid = Some(pid);
            self.command_line_offset_cells = 0;
            true
        } else {
            false
        }
    }

    /// Returns just the process rows that fit in the current table viewport.
    pub fn viewport_processes(&self) -> (rows: Vec<&ProcessSnapshot>)
        ensures
            rows@.len() == shown_count(self.visible().len() as int, self.offset() as int, self.rows() as int),
            forall|i: int|
                0 <= i < rows@.len() ==> *rows@[i] == self.visible()[self.offset() + i],
    {
        let processes = self.visible_processes();
        let mut rows: Vec<&ProcessSnapshot> = Vec::new();
        if self.vertical_offset >= processes.len() {
            return rows;
        }
        let mut j = self.vertical_offset;
        while j < processes.len() && j - self.vertical_offset < self.viewport_rows
            invariant
                self.offset() <= j <= processes@.len(),
                processes@.len() == self.visible().len(),
                forall|i: int| 0 <= i < processes@.len() ==> *processes@[i] == self.visible()[i],
                rows@.len() == j - self.offset(),
                j - self.offset() <= self.rows(),
                forall|i: int|
                    0 <= i < rows@.len() ==> *rows@[i] == self.visible()[self.offset() + i],
            decreases processes@.len() - j,
        {
            rows.push(processes[j]);
            j = j + 1;
        }
        rows
    }

    /// Returns the selected process row relative to the rendered viewport.
    pub fn selected_viewport_index(&self) -> (index: Option<usize>)
        ensures
            index == match self.selected_position() {
                Some(i) => if self.offset() <= i < self.offset() + self.rows() {
                    Some((i - self.offset()) as usize)
                } else {
                    None::<usize>
                },
                None => None::<usize>,
            },
    {
        match self.selected_index() {
            Some(index) => {
                if index >= self.vertical_offset && index - self.vertical_offset < self.viewport_rows {
                    Some(index - self.vertical_offset)
                } else {
                    None
                }
            },
            None => None,
        }
    }
}

/// How many of `count` rows a viewport of `rows` rows shows from `offset`.
pub open spec fn shown_count(count: int, offset: int, rows: int) -> int {
    if offset >= count {
        0
    } else if count - offset <= rows {
        count - offset
    } else {
        rows
    }
}

/// Moving the selection keeps a well-formed state well formed, and a move to
/// a visible row shows that row.
proof fn lemma_moved_wf(after: App, before: App, index: int)
    requires
        after.moved_to(before, index),
        before.wf(),
    ensures
        after.wf(),
        0 <= index < before.visible().len() ==> after.shows_selection(),
{
    let rows = before.visible();
    lemma_visible_len(before);
    if 0 <= index < rows.len() {
        let pid = rows[index].pid;
        lemma_pid_position(rows, pid, 0);
        lemma_offset_showing(before.offset(), rows.len() as int, before.rows(), pid_position(rows, pid));
    }
}

impl App {
    fn page_size(&self) -> (page: usize)
        ensures
            page == self.page_rows(),
    {
        if self.viewport_rows >= 1 {
            self.viewport_rows
        } else {
            1
        }
    }

    fn move_selection_to(&mut self, index: usize)
        ensures
            final(self).moved_to(*old(self), index as int),
    {
        let next_selected_pid = {
            let processes = self.visible_processes();
            if index < processes.len() {
                Some(processes[index].pid)
            } else {
                None
            }
        };
        match next_selected_pid {
            Some(pid) => {
                let same = match self.selected_pid {
                    Some(current) => current == pid,
                    None => false,
                };
                if !same {
                    self.selected_pid = Some(pid);
                    self.command_line_offset_cells = 0;
                }
                self.ensure_selected_row_is_visible();
            },
            None => {},
        }
    }

    fn move_selection_by(&mut self, backward: bool, distance: usize)
        ensures
            final(self).moved_by(*old(self), backward, distance as int),
    {
        let current_index = match self.selected_index() {
            Some(index) => index,
            None => return ,
        };
        let process_count = self.visible_indices().len();
        let destination = if backward {
            current_index.saturating_sub(distance)
        } else {
            let forward = current_index.saturating_add(distance);
            let last = process_count.saturating_sub(1);
            if forward <= last {
                forward
            } else {
                last
            }
        };
        self.move_selection_to(destination);
    }

    fn move_command_line_left(&mut self)
        ensures
            final(self).keeps_rows_of(*old(self)),
            final(self).keeps_view_of(*old(self)),
            final(self).selection() == old(self).selection(),
            final(self).offset() == old(self).offset(),
            final(self).command_offset() == old(self).command_offset().saturating_sub(1),
    {
        self.command_line_offset_cells = self.command_line_offset_cells.saturating_sub(1);
    }

    fn move_command_line_right(&mut self)
        ensures
            final(self).keeps_rows_of(*old(self)),
            final(self).keeps_view_of(*old(self)),
            final(self).selection() == old(self).selection(),
            final(self).offset() == old(self).offset(),
            final(self).command_offset() == min_u16(
                old(self).command_offset().saturating_add(1),
                old(self).command_offset_limit(),
            ),
    {
        self.command_line_offset_cells = self.command_line_offset_cells.saturating_add(1);
        self.clamp_command_line_offset();
    }

    /// Applies one key press: `q` and Esc request a clean exit; the arrow,
    /// page, Home and End keys move the selection; Left and Right scroll the
    /// selected command line. Other keys do nothing.
    pub fn handle_key(&mut self, key: KeyCode)
        requires
            key == KeyCode::PageUp ==> old(self).page_rows() != isize::MAX + 1,
        ensures
            final(self).key_effect(*old(self), key),
            old(self).wf() ==> final(self).wf(),
            old(self).wf() && (key is Up || key is Down || key is PageUp || key is PageDown
                || key is Home || key is End) ==> final(self).shows_selection(),
    {
        match key {
            KeyCode::Char(c) => {
                if c == 'q' {
                    self.should_quit = true;
                }
            },
            KeyCode::Esc => {
                self.should_quit = true;
            },
            KeyCode::Up => self.move_selection_by(true, 1),
            KeyCode::Down => self.move_selection_by(false, 1),
            KeyCode::PageUp => {
                let page = self.page_size();
                if page <= isize::MAX as usize {
                    self.move_selection_by(true, page);
                } else {
                    self.move_selection_by(false, usize::MAX - page + 1);
                }
            },
            KeyCode::PageDown => {
                let page = self.page_size();
                if page <= isize::MAX as usize {
                    self.move_selection_by(false, page);
                } else {
                    self.move_selection_by(true, usize::MAX - page + 1);
                }
            },
            KeyCode::Home => self.move_selection_to(0),
            KeyCode::End => {
                let last_index = self.visible_indices().len().saturating_sub(1);
                self.move_selection_to(last_index);
            },
            KeyCode::Left => self.move_command_line_left(),
            KeyCode::Right => self.move_command_line_right(),
            KeyCode::Enter | KeyCode::Other => {},
        }
        proof {
            let before = *old(self);
            if before.wf() {
                lemma_selected_position_in_range(before);
                let last = if before.visible().len() > 0 {
                    before.visible().len() - 1
                } else {
                    0
                };
                if self.moved_to(before, 0) {
                    lemma_moved_wf(*self, before, 0);
                }
                if self.moved_to(before, last) {
                    lemma_moved_wf(*self, before, last);
                }
                if before.selected_position() is Some {
                    let current = before.selected_position()->0;
                    assert forall|d: int, backward: bool| #[trigger]
                        self.moved_by(before, backward, d) && 0 <= d implies self.wf()
                        && self.shows_selection() by {
                        let forward = if current + d <= usize::MAX {
                            current + d
                        } else {
                            usize::MAX as int
                        };
                        let destination = if backward {
                            if current >= d {
                                current - d
                            } else {
                                0
                            }
                        } else if forward <= last {
                            forward
                        } else {
                            last
                        };
                        lemma_moved_wf(*self, before, destination);
                    }
                }
            }
        }
    }
}

/// The navigation keys select the neighbouring row (Down, Up), a row a page
/// away (PageDown, PageUp), or the first or last row (Home, End), stopping at
/// the ends of the table; they leave the listed rows as they were. Left and
/// Right only scroll the selected command line by one cell, Right no further
/// than its end.
pub proof fn lemma_navigation_keys(after: App, before: App, key: KeyCode)
    requires
        after.key_effect(before, key),
        before.selected_position() is Some,
    ensures
        ({
            let rows = before.visible();
            let p = before.selected_position()->0;
            let last = rows.len() - 1;
            let page = before.page_rows();
            &&& after.visible() == rows
            &&& key is Down ==> after.selection() == Some(rows[if p < last { p + 1 } else { p }].pid)
            &&& key is Up ==> after.selection() == Some(rows[if p > 0 { p - 1 } else { 0 }].pid)
            &&& key is Home ==> after.selection() == Some(rows[0].pid)
            &&& key is End ==> after.selection() == Some(rows[last].pid)
            &&& (key is PageDown && page <= isize::MAX) ==> after.selection() == Some(
                rows[if p + page <= last { p + page } else { last }].pid,
            )
            &&& (key is PageUp && page <= isize::MAX) ==> after.selection() == Some(
                rows[if p >= page { p - page } else { 0 }].pid,
            )
            &&& (key is Left || key is Right) ==> after.selection() == before.selection()
                && after.offset() == before.offset()
            &&& key is Left ==> after.command_offset() == if before.command_offset() > 0 {
                before.command_offset() - 1
            } else {
                0
            }
            &&& key is Right ==> after.command_offset() <= before.command_offset() + 1
                && after.command_offset() <= before.command_offset_limit()
                && (before.command_offset() < before.command_offset_limit()
                ==> after.command_offset() == before.command_offset() + 1)
        }),
{
    let rows = before.visible();
    lemma_visible_len(before);
    lemma_pid_position(rows, before.selection()->0, 0);
}

} // verus!
