use vstd::prelude::*;

use crate::app::{SortColumn, SortDirection, SortSpec};
use crate::model::{
    is_stale, Float32, Float64, Freshness, GpuAdapterSnapshot, Metric, NetworkInterfaceSnapshot,
    ProcessSnapshot, Snapshot, SystemSnapshot,
};
use crate::strings::{chars_of, decimal, digit_char, push_char, push_decimal};
use crate::theme::{label_of, theme_at, Theme};
use vstd::arithmetic::div_mod::{
    lemma_basic_div, lemma_div_denominator, lemma_fundamental_div_mod, lemma_small_mod,
};
use vstd::arithmetic::power2::{
    lemma2_to64, lemma2_to64_rest, lemma_pow2_adds, lemma_pow2_pos, lemma_pow2_strictly_increases,
    lemma_pow2_unfold, pow2,
};

verus! {

/// The smallest terminal, in columns, that the dashboard renders into.
pub const MINIMUM_WIDTH: u16 = 64;

/// The smallest terminal, in rows, that the dashboard renders into.
pub const MINIMUM_HEIGHT: u16 = 26;

const COLUMN_GAP: usize = 2;

const LABEL_WIDTH: usize = 8;

const MIN_LOGICAL_CPU_METER_WIDTH: usize = 24;

const LOGICAL_CPU_COLUMN_GAP: usize = 4;

const MAX_CPU_HISTORY_ROWS: usize = 8;

const MIN_CPU_HISTORY_ROWS: usize = 6;

const MIN_PROCESS_ROWS: u16 = 1;

const FOOTER_HEIGHT: u16 = 3;

const TABLE_CHROME_HEIGHT: u16 = 3;

/// What the CPU pane shows.
#[derive(Clone, Copy, Debug, Default, PartialEq, Eq, Structural)]
pub enum CpuDisplayMode {
    /// Aggregate CPU usage and its recent history.
    Summary,
    /// One meter per logical CPU.
    #[default]
    LogicalCpus,
}

/// How the process table lays out processes.
#[derive(Clone, Copy, Debug, Default, PartialEq, Eq, Structural)]
pub enum ProcessViewMode {
    #[default]
    Flat,
    Tree,
}

/// One row of the process table, with its place in the process tree.
#[derive(Debug)]
pub struct ProcessRow<'a> {
    pub process: &'a ProcessSnapshot,
    /// For each ancestor below the top level, whether it has a later
    /// sibling (so that its guide line continues past this row).
    pub ancestor_has_next_siblings: Vec<bool>,
    pub is_last_sibling: bool,
    pub has_children: bool,
}

pub open spec fn saturating_sub(a: int, b: int) -> int {
    if a >= b {
        a - b
    } else {
        0
    }
}

/// Whether the terminal is below the documented minimum size in either
/// dimension.
pub fn terminal_is_too_small(width: u16, height: u16) -> (too_small: bool)
    ensures
        too_small == (width < MINIMUM_WIDTH || height < MINIMUM_HEIGHT),
{
    width < MINIMUM_WIDTH || height < MINIMUM_HEIGHT
}

/// The height of the memory, GPU and network panes: one row of three panes
/// on wide terminals, two rows on medium ones, a stack of three on narrow
/// ones.
pub open spec fn resource_height(width: u16) -> u16 {
    if width >= 110 {
        5
    } else if width >= 80 {
        10
    } else {
        12
    }
}

pub fn resource_pane_height(width: u16) -> (height: u16)
    ensures
        height == resource_height(width),
{
    if width >= 110 {
        5
    } else if width >= 80 {
        10
    } else {
        12
    }
}

/// The number of CPU history rows: a taller graph only when at least one
/// process row still fits beneath it, none outside the summary mode.
pub open spec fn history_rows(width: u16, height: u16, mode: CpuDisplayMode) -> usize {
    if mode != CpuDisplayMode::Summary {
        0
    } else {
        let available = saturating_sub(height as int, resource_height(width) + 3 + 3 + 1 + 3);
        if available >= 8 {
            8
        } else if available >= 6 {
            6
        } else {
            0
        }
    }
}

/// Uses a larger graph only when doing so leaves at least one process row.
/// A compact summary is more useful than a tall dashboard with no table.
pub fn cpu_history_rows(width: u16, height: u16, mode: CpuDisplayMode) -> (rows: usize)
    ensures
        rows == history_rows(width, height, mode),
{
    if mode != CpuDisplayMode::Summary {
        return 0;
    }
    let reserved_height = resource_pane_height(width).saturating_add(FOOTER_HEIGHT).saturating_add(
        TABLE_CHROME_HEIGHT,
    ).saturating_add(MIN_PROCESS_ROWS).saturating_add(3);
    let available_rows = height.saturating_sub(reserved_height) as usize;
    if available_rows >= MAX_CPU_HISTORY_ROWS {
        MAX_CPU_HISTORY_ROWS
    } else if available_rows >= MIN_CPU_HISTORY_ROWS {
        MIN_CPU_HISTORY_ROWS
    } else {
        0
    }
}

/// Two meter columns when two meters of the minimum width fit side by side.
pub open spec fn cpu_columns(inner_width: usize) -> usize {
    if inner_width >= 24 * 2 + 4 {
        2
    } else {
        1
    }
}

pub fn logical_cpu_columns(inner_width: usize) -> (columns: usize)
    ensures
        columns == cpu_columns(inner_width),
{
    if inner_width >= MIN_LOGICAL_CPU_METER_WIDTH * 2 + LOGICAL_CPU_COLUMN_GAP {
        2
    } else {
        1
    }
}

/// The rows of the logical-CPU grid: enough for every CPU, at least one.
pub open spec fn grid_rows(cpu_count: usize, inner_width: usize) -> usize {
    let columns = cpu_columns(inner_width);
    let rows = (cpu_count + columns - 1) / columns as int;
    if rows >= 1 {
        rows as usize
    } else {
        1
    }
}

pub fn logical_cpu_grid_rows(cpu_count: usize, inner_width: usize) -> (rows: usize)
    ensures
        rows == grid_rows(cpu_count, inner_width),
{
    let columns = logical_cpu_columns(inner_width);
    let rows = cpu_count / columns + if cpu_count % columns == 0 {
        0
    } else {
        1
    };
    assert(rows == (cpu_count + columns - 1) / columns as int) by (nonlinear_arith)
        requires
            rows == cpu_count / columns + if cpu_count % columns == 0 {
                0int
            } else {
                1int
            },
            columns == 1 || columns == 2,
    ;
    if rows >= 1 {
        rows
    } else {
        1
    }
}

/// The width of each logical-CPU meter: the inner width less the gaps
/// between columns, shared equally.
pub fn logical_cpu_meter_width(inner_width: usize, columns: usize) -> (width: usize)
    requires
        columns > 0,
        4 * (columns - 1) <= usize::MAX,
    ensures
        width == saturating_sub(inner_width as int, 4 * (columns - 1)) / columns as int,
{
    inner_width.saturating_sub(LOGICAL_CPU_COLUMN_GAP * (columns - 1)) / columns
}

/// The height of the CPU pane, borders included.
pub open spec fn cpu_height(width: u16, height: u16, mode: CpuDisplayMode, cpu_count: usize) -> u16 {
    let inner_width = saturating_sub(width as int, 2) as usize;
    let content = match mode {
        CpuDisplayMode::Summary => {
            let rows = history_rows(width, height, mode);
            if rows == 0 {
                1
            } else {
                rows + 1
            }
        },
        CpuDisplayMode::LogicalCpus => grid_rows(cpu_count, inner_width) as int,
    };
    if content + 2 > u16::MAX {
        u16::MAX
    } else {
        (content + 2) as u16
    }
}

pub fn cpu_pane_height(width: u16, height: u16, mode: CpuDisplayMode, cpu_count: usize) -> (pane:
    u16)
    ensures
        pane == cpu_height(width, height, mode, cpu_count),
{
    let inner_width = width.saturating_sub(2) as usize;
    let content_height = match mode {
        CpuDisplayMode::Summary => {
            let history = cpu_history_rows(width, height, mode);
            if history == 0 {
                1
            } else {
                history + 1
            }
        },
        CpuDisplayMode::LogicalCpus => logical_cpu_grid_rows(cpu_count, inner_width),
    };
    let total = content_height.saturating_add(2);
    if total > 65535 {
        u16::MAX
    } else {
        total as u16
    }
}

/// The process rows that fit beneath the table header: none below the
/// minimum terminal size; otherwise the height left by the CPU pane, the
/// resource panes, the footer (three rows) and the table's borders and
/// header (three rows).
pub open spec fn table_rows(width: u16, height: u16, mode: CpuDisplayMode, cpu_count: usize) -> int {
    if width < MINIMUM_WIDTH || height < MINIMUM_HEIGHT {
        0
    } else {
        saturating_sub(
            saturating_sub(
                saturating_sub(height as int, cpu_height(width, height, mode, cpu_count) as int),
                resource_height(width) as int,
            ),
            6,
        )
    }
}

/// Returns the number of process rows that fit beneath the table header.
///
/// The dashboard reserves a mode-dependent header and three rows for the
/// footer. The table itself uses a top and bottom border plus one header row.
pub fn process_table_row_capacity(
    width: u16,
    height: u16,
    mode: CpuDisplayMode,
    cpu_count: usize,
) -> (rows: usize)
    ensures
        rows == table_rows(width, height, mode, cpu_count),
{
    if terminal_is_too_small(width, height) {
        0
    } else {
        height.saturating_sub(cpu_pane_height(width, height, mode, cpu_count)).saturating_sub(
            resource_pane_height(width),
        ).saturating_sub(FOOTER_HEIGHT + TABLE_CHROME_HEIGHT) as usize
    }
}

/// A taller CPU graph is only drawn when the process table keeps at least
/// one row beneath it.
pub proof fn lemma_history_leaves_a_table_row(width: u16, height: u16, cpu_count: usize)
    requires
        width >= MINIMUM_WIDTH,
        height >= MINIMUM_HEIGHT,
        history_rows(width, height, CpuDisplayMode::Summary) > 0,
    ensures
        table_rows(width, height, CpuDisplayMode::Summary, cpu_count) >= 1,
{
}

/// The width of text counted in characters.
pub fn display_width(text: &str) -> (width: usize)
    ensures
        width == text@.len(),
{
    text.unicode_len()
}

/// The cells left for a chart beside a label and a readout.
pub fn chart_cell_budget_with_label(inner_width: usize, label_width: usize, value_width: usize) -> (cells: usize)
    requires
        label_width + value_width + 2 <= usize::MAX,
    ensures
        cells == saturating_sub(inner_width as int, label_width + value_width + 2),
{
    inner_width.saturating_sub(label_width + value_width + COLUMN_GAP)
}

/// The cells left for a chart beside the standard label and a readout.
pub fn chart_cell_budget(inner_width: usize, value_width: usize) -> (cells: usize)
    requires
        value_width + 10 <= usize::MAX,
    ensures
        cells == saturating_sub(inner_width as int, value_width + 10),
{
    chart_cell_budget_with_label(inner_width, LABEL_WIDTH, value_width)
}

/// The name shown in the table: in the tree view, nested processes get a
/// guide per ancestor (a bar where that ancestor has later siblings) and a
/// branch connector.
pub open spec fn tree_name(
    name: Seq<char>,
    guides: Seq<bool>,
    is_last_sibling: bool,
    view_mode: ProcessViewMode,
) -> Seq<char> {
    if view_mode == ProcessViewMode::Flat || guides.len() == 0 {
        name
    } else {
        guide_text(guides) + seq![if is_last_sibling { '└' } else { '├' }, '─', '─', ' '] + name
    }
}

/// The ancestor guides: `│   ` where the ancestor continues, four spaces
/// where it does not.
pub open spec fn guide_text(guides: Seq<bool>) -> Seq<char>
    decreases guides.len(),
{
    if guides.len() == 0 {
        Seq::empty()
    } else {
        guide_text(guides.drop_last()) + if guides.last() {
            seq!['│', ' ', ' ', ' ']
        } else {
            seq![' ', ' ', ' ', ' ']
        }
    }
}

/// The layout of a name in the table. In the flat view, and for top-level
/// processes in the tree view, it is the name alone. Otherwise every
/// ancestor guide takes four cells (a bar first where that ancestor has
/// later siblings, else a space, then three spaces), followed by the branch
/// connector (`├` for a process with later siblings, `└` for the last one),
/// two horizontal strokes and a space, and then the name.
pub proof fn lemma_tree_name_layout(
    name: Seq<char>,
    guides: Seq<bool>,
    is_last_sibling: bool,
    view_mode: ProcessViewMode,
)
    ensures
        view_mode == ProcessViewMode::Flat || guides.len() == 0 ==> tree_name(
            name,
            guides,
            is_last_sibling,
            view_mode,
        ) == name,
        view_mode == ProcessViewMode::Tree && guides.len() > 0 ==> {
            let shown = tree_name(name, guides, is_last_sibling, view_mode);
            let at: int = 4 * guides.len() as int;
            &&& shown.len() == at + 4 + name.len()
            &&& forall|g: int|
                0 <= g < guides.len() ==> {
                    &&& shown[4 * g] == (if #[trigger] guides[g] {
                        '│'
                    } else {
                        ' '
                    })
                    &&& shown[4 * g + 1] == ' '
                    &&& shown[4 * g + 2] == ' '
                    &&& shown[4 * g + 3] == ' '
                }
            &&& shown[at] == (if is_last_sibling {
                '└'
            } else {
                '├'
            })
            &&& shown[at + 1] == '─'
            &&& shown[at + 2] == '─'
            &&& shown[at + 3] == ' '
            &&& shown.subrange(at + 4, shown.len() as int) == name
        },
{
    if view_mode == ProcessViewMode::Tree && guides.len() > 0 {
        lemma_guide_text_layout(guides);
        let shown = tree_name(name, guides, is_last_sibling, view_mode);
        let at: int = 4 * guides.len() as int;
        let guide = guide_text(guides);
        let connector = seq![if is_last_sibling { '└' } else { '├' }, '─', '─', ' '];
        assert(shown == guide + connector + name);
        assert forall|c: int| 0 <= c < at implies #[trigger] shown[c] == guide[c] by {}
        assert forall|c: int| 0 <= c < 4 implies #[trigger] shown[at + c] == connector[c] by {}
        assert(shown.subrange(at + 4, shown.len() as int) =~= name);
        assert forall|g: int| 0 <= g < guides.len() implies {
            &&& shown[4 * g] == (if #[trigger] guides[g] {
                '│'
            } else {
                ' '
            })
            &&& shown[4 * g + 1] == ' '
            &&& shown[4 * g + 2] == ' '
            &&& shown[4 * g + 3] == ' '
        } by {
            assert(shown[4 * g] == guide[4 * g]);
            assert(shown[4 * g + 1] == guide[4 * g + 1]);
            assert(shown[4 * g + 2] == guide[4 * g + 2]);
            assert(shown[4 * g + 3] == guide[4 * g + 3]);
        }
        assert(shown[at] == connector[0]);
        assert(shown[at + 1] == connector[1]);
        assert(shown[at + 2] == connector[2]);
        assert(shown[at + 3] == connector[3]);
    }
}

/// Each guide of `guide_text` takes four cells, led by a bar or a space.
proof fn lemma_guide_text_layout(guides: Seq<bool>)
    ensures
        guide_text(guides).len() == 4 * guides.len(),
        forall|g: int|
            0 <= g < guides.len() ==> {
                &&& guide_text(guides)[4 * g] == (if #[trigger] guides[g] {
                    '│'
                } else {
                    ' '
                })
                &&& guide_text(guides)[4 * g + 1] == ' '
                &&& guide_text(guides)[4 * g + 2] == ' '
                &&& guide_text(guides)[4 * g + 3] == ' '
            },
    decreases guides.len(),
{
    if guides.len() > 0 {
        let rest = guides.drop_last();
        lemma_guide_text_layout(rest);
        assert forall|g: int| 0 <= g < guides.len() implies {
            &&& guide_text(guides)[4 * g] == (if #[trigger] guides[g] {
                '│'
            } else {
                ' '
            })
            &&& guide_text(guides)[4 * g + 1] == ' '
            &&& guide_text(guides)[4 * g + 2] == ' '
            &&& guide_text(guides)[4 * g + 3] == ' '
        } by {
            if g < rest.len() {
                assert(rest[g] == guides[g]);
            }
        }
    }
}

pub fn process_name(row: &ProcessRow, view_mode: ProcessViewMode) -> (name: String)
    ensures
        name@ == tree_name(
            row.process.name@,
            row.ancestor_has_next_siblings@,
            row.is_last_sibling,
            view_mode,
        ),
{
    if view_mode == ProcessViewMode::Flat {
        return row.process.name.clone();
    }
    // Top-level processes have no parent relationship to draw. Starting their
    // names directly preserves space for the hierarchy that follows.
    if row.ancestor_has_next_siblings.len() == 0 {
        return row.process.name.clone();
    }
    let guides = &row.ancestor_has_next_siblings;
    let mut name = String::new();
    let mut i: usize = 0;
    while i < guides.len()
        invariant
            i <= guides@.len(),
            name@ == guide_text(guides@.take(i as int)),
        decreases guides@.len() - i,
    {
        if guides[i] {
            push_char(&mut name, '│');
        } else {
            push_char(&mut name, ' ');
        }
        push_char(&mut name, ' ');
        push_char(&mut name, ' ');
        push_char(&mut name, ' ');
        proof {
            assert(guides@.take(i + 1).drop_last() =~= guides@.take(i as int));
        }
        assert(name@ =~= guide_text(guides@.take(i + 1)));
        i = i + 1;
    }
    assert(guides@.take(i as int) =~= guides@);
    push_char(&mut name, if row.is_last_sibling { '└' } else { '├' });
    push_char(&mut name, '─');
    push_char(&mut name, '─');
    push_char(&mut name, ' ');
    name.append(row.process.name.as_str());
    assert(name@ =~= tree_name(
        row.process.name@,
        row.ancestor_has_next_siblings@,
        row.is_last_sibling,
        view_mode,
    ));
    name
}

pub fn view_mode_label(view_mode: ProcessViewMode) -> (label: &'static str)
    ensures
        label@ == match view_mode {
            ProcessViewMode::Flat => "Flat"@,
            ProcessViewMode::Tree => "Tree"@,
        },
{
    match view_mode {
        ProcessViewMode::Flat => "Flat",
        ProcessViewMode::Tree => "Tree",
    }
}

/// The table-title label of a sort column.
pub open spec fn column_label(column: SortColumn) -> Seq<char> {
    match column {
        SortColumn::Pid => "PID"@,
        SortColumn::Name => "Name"@,
        SortColumn::CpuPercent => "CPU"@,
        SortColumn::Memory => "Memory"@,
    }
}

pub fn sort_column_label(column: SortColumn) -> (label: &'static str)
    ensures
        label@ == column_label(column),
{
    match column {
        SortColumn::Pid => "PID",
        SortColumn::Name => "Name",
        SortColumn::CpuPercent => "CPU",
        SortColumn::Memory => "Memory",
    }
}

/// The arrow that shows a sort direction.
pub open spec fn direction_arrow(direction: SortDirection) -> char {
    match direction {
        SortDirection::Ascending => '↑',
        SortDirection::Descending => '↓',
    }
}

pub fn sort_direction_indicator(direction: SortDirection) -> (arrow: char)
    ensures
        arrow == direction_arrow(direction),
{
    match direction {
        SortDirection::Ascending => '↑',
        SortDirection::Descending => '↓',
    }
}

/// The process-table title: view mode, sort column and direction, and the
/// filter when there is one.
pub open spec fn table_title(view_mode: ProcessViewMode, sort: SortSpec, filter: Seq<char>) -> Seq<
    char,
> {
    " Processes ["@ + match view_mode {
        ProcessViewMode::Flat => "Flat"@,
        ProcessViewMode::Tree => "Tree"@,
    } + " · "@ + column_label(sort.column) + seq![direction_arrow(sort.direction)] + "]"@
        + if filter.len() == 0 {
        Seq::empty()
    } else {
        " / "@ + filter
    } + " "@
}

pub fn process_table_title(view_mode: ProcessViewMode, sort: SortSpec, filter: &str) -> (title:
    String)
    ensures
        title@ == table_title(view_mode, sort, filter@),
{
    let mut title = " Processes [".to_string();
    title.append(view_mode_label(view_mode));
    title.append(" · ");
    title.append(sort_column_label(sort.column));
    push_char(&mut title, sort_direction_indicator(sort.direction));
    title.append("]");
    if filter.unicode_len() > 0 {
        title.append(" / ");
        title.append(filter);
    }
    title.append(" ");
    assert(title@ =~= table_title(view_mode, sort, filter@));
    title
}

/// The key hints and status line under the process table.
pub open spec fn footer_of(
    stale: bool,
    status_message: Option<Seq<char>>,
    filter_editing: bool,
    filter: Seq<char>,
    view_mode: ProcessViewMode,
) -> Seq<char> {
    let stale_prefix = if stale {
        "~ Stale  "@
    } else {
        Seq::empty()
    };
    let status_prefix = match status_message {
        Some(message) => message + "  "@,
        None => Seq::empty(),
    };
    let prefix = stale_prefix + status_prefix;
    if filter_editing {
        prefix + "/"@ + filter + "  Enter apply  Esc cancel  Ctrl+U clear"@
    } else if filter.len() == 0 {
        if view_mode == ProcessViewMode::Tree {
            prefix + "c CPU  g GPU  t Flat  o Theme  x Kill  s Sort  / Filter  q Quit"@
        } else {
            prefix + "c CPU  g GPU  t Tree  o Theme  x Kill  s Sort  S Reverse  / Filter  q Quit"@
        }
    } else {
        prefix + "Filter: "@ + filter
            + "  c CPU  g GPU  t View  o Theme  x Kill  s Sort  S Reverse  / Edit  q Quit"@
    }
}

/// The footer: a stale marker when the snapshot holds carried-over readings,
/// the status message, then the key hints for the current mode.
pub fn footer_text(
    snapshot: Option<&Snapshot>,
    status_message: Option<&str>,
    filter_editing: bool,
    filter: &str,
    view_mode: ProcessViewMode,
) -> (text: String)
    ensures
        text@ == footer_of(
            match snapshot {
                Some(snapshot) => snapshot_stale(*snapshot),
                None => false,
            },
            match status_message {
                Some(message) => Some(message@),
                None => None,
            },
            filter_editing,
            filter@,
            view_mode,
        ),
{
    let stale = match snapshot {
        Some(snapshot) => snapshot_is_stale(snapshot),
        None => false,
    };
    let mut text = String::new();
    if stale {
        text.append("~ Stale  ");
    }
    if let Some(message) = status_message {
        text.append(message);
        text.append("  ");
    }
    if filter_editing {
        text.append("/");
        text.append(filter);
        text.append("  Enter apply  Esc cancel  Ctrl+U clear");
    } else if filter.unicode_len() == 0 {
        if view_mode == ProcessViewMode::Tree {
            text.append("c CPU  g GPU  t Flat  o Theme  x Kill  s Sort  / Filter  q Quit");
        } else {
            text.append("c CPU  g GPU  t Tree  o Theme  x Kill  s Sort  S Reverse  / Filter  q Quit");
        }
    } else {
        text.append("Filter: ");
        text.append(filter);
        text.append("  c CPU  g GPU  t View  o Theme  x Kill  s Sort  S Reverse  / Edit  q Quit");
    }
    assert(text@ =~= footer_of(
        stale,
        match status_message {
            Some(message) => Some(message@),
            None => None,
        },
        filter_editing,
        filter@,
        view_mode,
    ));
    text
}

/// Whether a metric was carried over from an earlier refresh.
pub fn metric_is_stale<T>(metric: &Metric<T>) -> (stale: bool)
    ensures
        stale == (metric.freshness is Stale),
{
    match &metric.freshness {
        Freshness::Stale { .. } => true,
        Freshness::Fresh => false,
    }
}

/// Whether either rate of a network interface was carried over.
pub open spec fn interface_is_stale(interface: NetworkInterfaceSnapshot) -> bool {
    is_stale(interface.transmit_bytes_per_second) || is_stale(interface.receive_bytes_per_second)
}

/// Whether any reading of a GPU adapter was carried over.
pub open spec fn adapter_is_stale(adapter: GpuAdapterSnapshot) -> bool {
    ||| is_stale(adapter.utilization_percent)
    ||| is_stale(adapter.dedicated_memory_used_bytes)
    ||| is_stale(adapter.dedicated_memory_capacity_bytes)
    ||| is_stale(adapter.shared_memory_used_bytes)
    ||| is_stale(adapter.shared_memory_capacity_bytes)
}

/// Whether any reading anywhere in a snapshot was carried over from an earlier refresh.
pub open spec fn snapshot_stale(snapshot: Snapshot) -> bool {
    let system = snapshot.system;
    ||| is_stale(system.cpu_percent)
    ||| is_stale(system.logical_cpu_percentages)
    ||| is_stale(system.total_memory_bytes)
    ||| is_stale(system.used_memory_bytes)
    ||| is_stale(system.commit_charge_bytes)
    ||| is_stale(system.commit_limit_bytes)
    ||| is_stale(system.network.interfaces)
    ||| is_stale(system.network.total_transmit_bytes_per_second)
    ||| is_stale(system.network.total_receive_bytes_per_second)
    ||| exists|i: int|
        0 <= i < system.network.interfaces.value.len()
            && #[trigger] interface_is_stale(system.network.interfaces.value[i])
    ||| is_stale(system.gpu.adapters)
    ||| exists|i: int|
        0 <= i < system.gpu.adapters.value.len() && #[trigger] adapter_is_stale(
            system.gpu.adapters.value[i],
        )
    ||| is_stale(snapshot.processes)
    ||| exists|i: int|
        0 <= i < snapshot.processes.value.len() && #[trigger] is_stale(
            snapshot.processes.value[i].thread_count,
        )
}

fn any_interface_stale(interfaces: &Vec<NetworkInterfaceSnapshot>) -> (stale: bool)
    ensures
        stale == exists|i: int|
            0 <= i < interfaces.len() && #[trigger] interface_is_stale(interfaces@[i]),
{
    for index in 0..interfaces.len()
        invariant
            forall|i: int| 0 <= i < index ==> !#[trigger] interface_is_stale(interfaces@[i]),
    {
        let interface = &interfaces[index];
        if metric_is_stale(&interface.transmit_bytes_per_second) || metric_is_stale(
            &interface.receive_bytes_per_second,
        ) {
            assert(interface_is_stale(interfaces@[index as int]));
            return true;
        }
    }
    false
}

fn any_adapter_stale(adapters: &Vec<GpuAdapterSnapshot>) -> (stale: bool)
    ensures
        stale == exists|i: int| 0 <= i < adapters.len() && #[trigger] adapter_is_stale(adapters@[i]),
{
    for index in 0..adapters.len()
        invariant
            forall|i: int| 0 <= i < index ==> !#[trigger] adapter_is_stale(adapters@[i]),
    {
        let adapter = &adapters[index];
        if metric_is_stale(&adapter.utilization_percent) || metric_is_stale(
            &adapter.dedicated_memory_used_bytes,
        ) || metric_is_stale(&adapter.dedicated_memory_capacity_bytes) || metric_is_stale(
            &adapter.shared_memory_used_bytes,
        ) || metric_is_stale(&adapter.shared_memory_capacity_bytes) {
            assert(adapter_is_stale(adapters@[index as int]));
            return true;
        }
    }
    false
}

fn any_thread_count_stale(processes: &Vec<ProcessSnapshot>) -> (stale: bool)
    ensures
        stale == exists|i: int| 0 <= i < processes.len() && #[trigger] is_stale(processes@[i].thread_count),
{
    for index in 0..processes.len()
        invariant
            forall|i: int| 0 <= i < index ==> !#[trigger] is_stale(processes@[i].thread_count),
    {
        if metric_is_stale(&processes[index].thread_count) {
            assert(is_stale(processes@[index as int].thread_count));
            return true;
        }
    }
    false
}

/// Whether the dashboard should flag the snapshot as partly carried over.
pub fn snapshot_is_stale(snapshot: &Snapshot) -> (stale: bool)
    ensures
        stale == snapshot_stale(*snapshot),
{
    let system = &snapshot.system;
    metric_is_stale(&system.cpu_percent) || metric_is_stale(&system.logical_cpu_percentages)
        || metric_is_stale(&system.total_memory_bytes) || metric_is_stale(
        &system.used_memory_bytes,
    ) || metric_is_stale(&system.commit_charge_bytes) || metric_is_stale(
        &system.commit_limit_bytes,
    ) || metric_is_stale(&system.network.interfaces) || metric_is_stale(
        &system.network.total_transmit_bytes_per_second,
    ) || metric_is_stale(&system.network.total_receive_bytes_per_second) || any_interface_stale(
        &system.network.interfaces.value,
    ) || metric_is_stale(&system.gpu.adapters) || any_adapter_stale(&system.gpu.adapters.value)
        || metric_is_stale(&snapshot.processes) || any_thread_count_stale(
        &snapshot.processes.value,
    )
}

/// The marker that precedes a stale reading.
pub open spec fn marker_of(stale: bool) -> Seq<char> {
    if stale {
        seq!['~']
    } else {
        Seq::empty()
    }
}

pub fn freshness_marker<T>(metric: &Metric<T>) -> (marker: &'static str)
    ensures
        marker@ == marker_of(metric.freshness is Stale),
{
    if metric_is_stale(metric) {
        proof {
            reveal_strlit("~");
        }
        "~"
    } else {
        proof {
            reveal_strlit("");
        }
        ""
    }
}

/// A thread count, marked when stale.
pub fn format_thread_count(metric: &Metric<u64>) -> (text: String)
    ensures
        text@ == marker_of(metric.freshness is Stale) + decimal(metric.value as nat),
{
    let mut text = freshness_marker(metric).to_string();
    push_decimal(&mut text, metric.value as u128);
    text
}

/// The first integer from which the spacing between consecutive `f64`
/// values exceeds one: 2^53.
pub const SIGNIFICAND_LIMIT: u128 = 9007199254740992;

/// The spacing between consecutive `f64` values around `n`: one below 2^53,
/// doubling with each further binary digit of `n`.
pub open spec fn spacing_of_doubles(n: nat) -> nat
    decreases n,
{
    if n < SIGNIFICAND_LIMIT {
        1
    } else {
        2 * spacing_of_doubles(n / 2)
    }
}

/// `n / d` rounded to the nearest integer, ties to the even one.
pub open spec fn rounded_quotient(n: nat, d: nat) -> nat
    recommends
        d > 0,
{
    let q = n / d;
    let r = n % d;
    if 2 * r > d || (2 * r == d && q % 2 == 1) {
        q + 1
    } else {
        q
    }
}

/// The value of the `f64` nearest to `n` (ties to even), which is what
/// `n as f64` holds.
pub open spec fn nearest_double(n: nat) -> nat {
    rounded_quotient(n, spacing_of_doubles(n)) * spacing_of_doubles(n)
}

/// The binary unit a byte count is shown in: 0 for bytes, then KiB, MiB,
/// GiB and TiB, the largest whose size the count reaches.
pub open spec fn byte_unit(n: nat) -> nat {
    if n >= 1099511627776 {
        4
    } else if n >= 1073741824 {
        3
    } else if n >= 1048576 {
        2
    } else if n >= 1024 {
        1
    } else {
        0
    }
}

/// The size in bytes of a unit.
pub open spec fn unit_size(unit: nat) -> nat {
    if unit == 1 {
        1024
    } else if unit == 2 {
        1048576
    } else if unit == 3 {
        1073741824
    } else if unit == 4 {
        1099511627776
    } else {
        1
    }
}

/// The name of a unit above bytes.
pub open spec fn unit_suffix(unit: nat) -> Seq<char> {
    if unit == 1 {
        seq!['K', 'i', 'B']
    } else if unit == 2 {
        seq!['M', 'i', 'B']
    } else if unit == 3 {
        seq!['G', 'i', 'B']
    } else {
        seq!['T', 'i', 'B']
    }
}

/// A byte count in its unit, in tenths, as one-decimal formatting of the
/// nearest `f64` rounds it.
pub open spec fn tenths_in_unit(n: nat) -> nat {
    rounded_quotient(10 * nearest_double(n), unit_size(byte_unit(n)))
}

/// A byte count as the dashboard shows it: whole bytes below 1 KiB, else one
/// decimal place in the largest binary unit up to TiB.
pub open spec fn bytes_text(n: nat) -> Seq<char> {
    if byte_unit(n) == 0 {
        decimal(n) + seq!['B']
    } else {
        let tenths = tenths_in_unit(n);
        decimal(tenths / 10) + seq!['.', digit_char((tenths % 10) as int)] + unit_suffix(
            byte_unit(n),
        )
    }
}

fn round_half_even(n: u128, d: u128) -> (q: u128)
    requires
        0 < d,
        2 * d <= 0x1_0000_0000_0000_0000_0000_0000_0000_0000,
        n < u128::MAX,
    ensures
        q == rounded_quotient(n as nat, d as nat),
        q <= n / d + 1,
{
    let q = n / d;
    let r = n % d;
    if 2 * r > d || (2 * r == d && q % 2 == 1) {
        q + 1
    } else {
        q
    }
}

fn nearest_double_value(n: u64) -> (nearest: u128)
    ensures
        nearest == nearest_double(n as nat),
        nearest <= 0x2_0000_0000_0000_0000,
{
    let mut spacing: u128 = 1;
    let mut quotient: u128 = n as u128;
    while quotient >= SIGNIFICAND_LIMIT
        invariant
            1 <= spacing <= 4096,
            quotient == n as nat / spacing as nat,
            spacing_of_doubles(n as nat) == spacing * spacing_of_doubles(quotient as nat),
        decreases quotient,
    {
        proof {
            lemma_div_denominator(n as int, spacing as int, 2);
            lemma_fundamental_div_mod(n as int, spacing as int);
            let r = n as int % spacing as int;
            assert(n as int == spacing * quotient + r);
            assert(spacing * 2 <= 4096) by (nonlinear_arith)
                requires
                    n as int == spacing * quotient + r,
                    r >= 0,
                    quotient >= SIGNIFICAND_LIMIT,
                    n < 0x1_0000_0000_0000_0000,
                    spacing >= 1,
            ;
            let rest = spacing_of_doubles(quotient as nat / 2);
            assert(spacing * (2 * rest) == (spacing * 2) * rest) by (nonlinear_arith);
        }
        quotient = quotient / 2;
        spacing = spacing * 2;
    }
    assert(spacing_of_doubles(quotient as nat) == 1);
    assert(spacing_of_doubles(n as nat) == spacing) by (nonlinear_arith)
        requires
            spacing_of_doubles(quotient as nat) == 1,
            spacing_of_doubles(n as nat) == spacing * spacing_of_doubles(quotient as nat),
    ;
    let rounded = round_half_even(n as u128, spacing);
    assert(rounded * spacing <= 0x2_0000_0000_0000_0000) by (nonlinear_arith)
        requires
            rounded <= quotient + 1,
            quotient < SIGNIFICAND_LIMIT,
            spacing <= 4096,
    ;
    rounded * spacing
}

/// Formats a byte count with compact binary units (`512B`, `1.5KiB`).
pub fn format_bytes(bytes: u64) -> (text: String)
    ensures
        text@ == bytes_text(bytes as nat),
{
    let mut text = String::new();
    if bytes < 1024 {
        push_decimal(&mut text, bytes as u128);
        push_char(&mut text, 'B');
        return text;
    }
    let (size, suffix): (u128, [char; 3]) = if bytes >= 1099511627776 {
        (1099511627776, ['T', 'i', 'B'])
    } else if bytes >= 1073741824 {
        (1073741824, ['G', 'i', 'B'])
    } else if bytes >= 1048576 {
        (1048576, ['M', 'i', 'B'])
    } else {
        (1024, ['K', 'i', 'B'])
    };
    let nearest = nearest_double_value(bytes);
    let tenths = round_half_even(10 * nearest, size);
    push_decimal(&mut text, tenths / 10);
    push_char(&mut text, '.');
    let digit = (tenths % 10) as u8;
    push_char(&mut text, (digit + 0x30) as char);
    push_char(&mut text, suffix[0]);
    push_char(&mut text, suffix[1]);
    push_char(&mut text, suffix[2]);
    assert(suffix@ =~= unit_suffix(byte_unit(bytes as nat)));
    assert(text@ =~= bytes_text(bytes as nat));
    text
}

/// A byte metric, marked when stale.
pub fn format_metric_bytes(metric: &Metric<u64>) -> (text: String)
    ensures
        text@ == marker_of(metric.freshness is Stale) + bytes_text(metric.value as nat),
{
    let mut text = freshness_marker(metric).to_string();
    let bytes = format_bytes(metric.value);
    text.append(bytes.as_str());
    text
}

/// Used and total GPU memory, with a dash for what the driver did not report.
pub open spec fn memory_readout_text(used: Option<u64>, capacity: Option<u64>) -> Seq<char> {
    match (used, capacity) {
        (Some(used), Some(capacity)) => bytes_text(used as nat) + seq!['/'] + bytes_text(
            capacity as nat,
        ),
        (None, Some(capacity)) => seq!['—', '/'] + bytes_text(capacity as nat),
        _ => seq!['—'],
    }
}

/// Used and total GPU memory as `used/capacity`, with `—` for a missing side.
pub fn optional_memory_readout(used: &Metric<Option<u64>>, capacity: &Metric<Option<u64>>) -> (text: String)
    ensures
        text@ == memory_readout_text(used.value, capacity.value),
{
    let mut text = String::new();
    match (used.value, capacity.value) {
        (Some(used), Some(capacity)) => {
            text.append(format_bytes(used).as_str());
            push_char(&mut text, '/');
            text.append(format_bytes(capacity).as_str());
        },
        (None, Some(capacity)) => {
            push_char(&mut text, '—');
            push_char(&mut text, '/');
            text.append(format_bytes(capacity).as_str());
        },
        _ => {
            push_char(&mut text, '—');
        },
    }
    text
}

/// The biased exponent field of a binary32 value.
pub open spec fn f32_exponent(value: Float32) -> int {
    (value.bits as int / 0x80_0000) % 0x100
}

/// The fraction field of a binary32 value.
pub open spec fn f32_fraction(value: Float32) -> int {
    value.bits as int % 0x80_0000
}

/// The integer significand of a finite binary32 value.
pub open spec fn f32_significand(value: Float32) -> nat {
    if f32_exponent(value) == 0 {
        f32_fraction(value) as nat
    } else {
        (f32_fraction(value) + 0x80_0000) as nat
    }
}

/// The power of two that scales the significand of a finite binary32 value:
/// its magnitude is `f32_significand(value) * 2^f32_scale(value)`.
pub open spec fn f32_scale(value: Float32) -> int {
    if f32_exponent(value) == 0 {
        -149
    } else {
        f32_exponent(value) - 150
    }
}

/// The magnitude of a finite binary32 value in tenths, rounded to the
/// nearest tenth, ties to even, as one-decimal formatting rounds it.
pub open spec fn magnitude_in_tenths(value: Float32) -> nat {
    if f32_scale(value) >= 0 {
        10 * f32_significand(value) * pow2(f32_scale(value) as nat)
    } else {
        rounded_quotient(10 * f32_significand(value), pow2((-f32_scale(value)) as nat))
    }
}

/// A binary32 value as `format!("{value:.1}")` writes it: `NaN`, `inf` or
/// `-inf`, else an optional minus sign, the whole part and one decimal.
pub open spec fn one_decimal_text(value: Float32) -> Seq<char> {
    let negative = value.bits >= 0x8000_0000;
    if f32_exponent(value) == 0xFF {
        if f32_fraction(value) != 0 {
            seq!['N', 'a', 'N']
        } else if negative {
            seq!['-', 'i', 'n', 'f']
        } else {
            seq!['i', 'n', 'f']
        }
    } else {
        let tenths = magnitude_in_tenths(value);
        (if negative {
            seq!['-']
        } else {
            Seq::empty()
        }) + decimal(tenths / 10) + seq!['.', digit_char((tenths % 10) as int)]
    }
}

/// A percentage with one decimal and a percent sign.
pub open spec fn percent_text(value: Float32) -> Seq<char> {
    one_decimal_text(value) + seq!['%']
}

/// Powers of two below 2^128 fit in a `u128`.
proof fn lemma_pow2_fits_u128(e: nat)
    requires
        e <= 128,
    ensures
        pow2(e) <= 0x1_0000_0000_0000_0000_0000_0000_0000_0000,
        e < 128 ==> 2 * pow2(e) <= 0x1_0000_0000_0000_0000_0000_0000_0000_0000,
{
    lemma2_to64_rest();
    lemma_pow2_adds(64, 64);
    assert(pow2(128) == 0x1_0000_0000_0000_0000_0000_0000_0000_0000) by (nonlinear_arith)
        requires
            pow2(128) == pow2(64) * pow2(64),
            pow2(64) == 0x1_0000_0000_0000_0000,
    ;
    if e < 128 {
        lemma_pow2_unfold(e + 1);
        if e + 1 < 128 {
            lemma_pow2_strictly_increases(e + 1, 128);
        }
    }
}

/// Formats a percentage with one decimal (`12.5%`).
pub fn format_percent_value(value: Float32) -> (text: String)
    ensures
        text@ == percent_text(value),
{
    let mut text = String::new();
    let bits = value.bits;
    let negative = bits >= 0x8000_0000;
    let exponent = (bits / 0x80_0000) % 0x100;
    let fraction = bits % 0x80_0000;
    if exponent == 0xFF {
        if fraction != 0 {
            text.append("NaN");
            proof {
                reveal_strlit("NaN");
            }
        } else if negative {
            text.append("-inf");
            proof {
                reveal_strlit("-inf");
            }
        } else {
            text.append("inf");
            proof {
                reveal_strlit("inf");
            }
        }
        push_char(&mut text, '%');
        assert(text@ =~= percent_text(value));
        return text;
    }
    if negative {
        push_char(&mut text, '-');
    }
    let significand: u128 = if exponent == 0 {
        fraction as u128
    } else {
        fraction as u128 + 0x80_0000
    };
    proof {
        lemma2_to64();
    }
    if exponent >= 150 {
        let shift = exponent - 150;
        let mut magnitude: u128 = significand;
        let mut i: u32 = 0;
        while i < shift
            invariant
                i <= shift <= 104,
                significand < pow2(24),
                magnitude == significand * pow2(i as nat),
            decreases shift - i,
        {
            proof {
                lemma_pow2_unfold((i + 1) as nat);
                lemma_pow2_adds(24, (i + 1) as nat);
                lemma_pow2_fits_u128((25 + i) as nat);
                assert(significand * pow2((i + 1) as nat) == 2 * (significand * pow2(i as nat)))
                    by (nonlinear_arith)
                    requires
                        pow2((i + 1) as nat) == 2 * pow2(i as nat),
                ;
                lemma_pow2_pos((i + 1) as nat);
                assert(significand * pow2((i + 1) as nat) < pow2(24) * pow2((i + 1) as nat))
                    by (nonlinear_arith)
                    requires
                        significand < pow2(24),
                        pow2((i + 1) as nat) > 0,
                ;
            }
            magnitude = magnitude * 2;
            i = i + 1;
        }
        push_decimal(&mut text, magnitude);
        push_char(&mut text, '.');
        push_char(&mut text, '0');
        proof {
            let tenths = magnitude_in_tenths(value);
            assert(f32_scale(value) == shift);
            assert(f32_significand(value) == significand);
            assert(10 * significand * pow2(shift as nat) == 10 * (significand * pow2(shift as nat)))
                by (nonlinear_arith);
            assert(tenths == 10 * magnitude);
            assert(tenths / 10 == magnitude && tenths % 10 == 0) by (nonlinear_arith)
                requires
                    tenths == 10 * magnitude,
            ;
        }
    } else {
        let shift = 150 - if exponent == 0 { 1 } else { exponent };
        let tenths: u128 = if shift >= 100 {
            0
        } else {
            let mut divisor: u128 = 1;
            let mut i: u32 = 0;
            while i < shift
                invariant
                    i <= shift < 100,
                    divisor == pow2(i as nat),
                decreases shift - i,
            {
                proof {
                    lemma_pow2_unfold((i + 1) as nat);
                    lemma_pow2_fits_u128((i + 1) as nat);
                }
                divisor = divisor * 2;
                i = i + 1;
            }
            proof {
                lemma_pow2_fits_u128(shift as nat);
                lemma_pow2_pos(shift as nat);
            }
            round_half_even(10 * significand, divisor)
        };
        proof {
            if shift >= 100 {
                lemma_pow2_strictly_increases(30, shift as nat);
                let d = pow2(shift as nat);
                let n = (10 * significand) as nat;
                assert(n < pow2(30));
                lemma_basic_div(n as int, d as int);
                lemma_small_mod(n, d);
            }
        }
        push_decimal(&mut text, tenths / 10);
        push_char(&mut text, '.');
        let digit = (tenths % 10) as u8;
        push_char(&mut text, (digit + 0x30) as char);
    }
    push_char(&mut text, '%');
    assert(text@ =~= percent_text(value));
    text
}

/// A percentage metric, marked when stale.
pub fn format_percent(metric: &Metric<Float32>) -> (text: String)
    ensures
        text@ == marker_of(metric.freshness is Stale) + percent_text(metric.value),
{
    let mut text = freshness_marker(metric).to_string();
    text.append(format_percent_value(metric.value).as_str());
    text
}

/// A percentage that may be missing, as shown: the stale marker, then the
/// percentage or a dash.
pub open spec fn optional_percent_text(metric: Metric<Option<Float32>>) -> Seq<char> {
    marker_of(metric.freshness is Stale) + match metric.value {
        Some(value) => percent_text(value),
        None => seq!['—'],
    }
}

/// A percentage that may be missing: a dash in its place, marked when stale.
pub fn format_optional_percent(metric: &Metric<Option<Float32>>) -> (text: String)
    ensures
        text@ == optional_percent_text(*metric),
{
    let mut text = freshness_marker(metric).to_string();
    match metric.value {
        Some(value) => text.append(format_percent_value(value).as_str()),
        None => push_char(&mut text, '—'),
    }
    text
}

/// The CPU pane's title: the total CPU usage, or `--%` before the first
/// snapshot.
pub fn cpu_pane_title(system: Option<&SystemSnapshot>) -> (title: String)
    ensures
        title@ == " CPU · "@ + match system {
            Some(system) => marker_of(system.cpu_percent.freshness is Stale) + percent_text(
                system.cpu_percent.value,
            ),
            None => "--%"@,
        } + " "@,
{
    let mut title = " CPU · ".to_string();
    match system {
        Some(system) => title.append(format_percent(&system.cpu_percent).as_str()),
        None => title.append("--%"),
    }
    title.append(" ");
    title
}

/// The biased exponent field of a binary64 value.
pub open spec fn f64_exponent(value: Float64) -> int {
    (value.bits as int / 0x10_0000_0000_0000) % 0x800
}

/// The fraction field of a binary64 value.
pub open spec fn f64_fraction(value: Float64) -> int {
    value.bits as int % 0x10_0000_0000_0000
}

/// The integer significand of a finite binary64 value.
pub open spec fn f64_significand(value: Float64) -> nat {
    if f64_exponent(value) == 0 {
        f64_fraction(value) as nat
    } else {
        (f64_fraction(value) + 0x10_0000_0000_0000) as nat
    }
}

/// The power of two that scales the significand of a finite binary64 value.
pub open spec fn f64_scale(value: Float64) -> int {
    if f64_exponent(value) == 0 {
        -1074
    } else {
        f64_exponent(value) - 1075
    }
}

/// Whether a rate can be shown: finite and not below zero (`-0.0` counts as
/// zero).
pub open spec fn is_showable_rate(value: Float64) -> bool {
    &&& f64_exponent(value) != 0x7FF
    &&& (value.bits < 0x8000_0000_0000_0000 || f64_significand(value) == 0)
}

/// A non-negative finite rate rounded to whole bytes, half away from zero,
/// and saturated to `u64` as `rate.round() as u64` does.
pub open spec fn rounded_rate(value: Float64) -> nat {
    let significand = f64_significand(value);
    let scale = f64_scale(value);
    if scale >= 0 {
        let whole = significand * pow2(scale as nat);
        if whole > u64::MAX {
            u64::MAX as nat
        } else {
            whole
        }
    } else {
        let k = (-scale) as nat;
        (significand + pow2((k - 1) as nat)) / pow2(k)
    }
}

/// A byte rate as the network pane shows it: the stale marker, then the
/// rounded rate with a binary unit and `/s`, or a dash when there is no
/// showable rate.
pub open spec fn rate_text(metric: Metric<Option<Float64>>) -> Seq<char> {
    marker_of(metric.freshness is Stale) + match metric.value {
        Some(rate) => if is_showable_rate(rate) {
            bytes_text(rounded_rate(rate)) + seq!['/', 's']
        } else {
            seq!['—']
        },
        None => seq!['—'],
    }
}

fn rounded_rate_value(rate: Float64) -> (bytes: u64)
    requires
        is_showable_rate(rate),
    ensures
        bytes == rounded_rate(rate),
{
    let bits = rate.bits;
    let exponent = (bits / 0x10_0000_0000_0000) % 0x800;
    let fraction = bits % 0x10_0000_0000_0000;
    let significand: u128 = if exponent == 0 {
        fraction as u128
    } else {
        fraction as u128 + 0x10_0000_0000_0000
    };
    proof {
        lemma2_to64();
        lemma2_to64_rest();
    }
    if exponent >= 1075 {
        let shift = exponent - 1075;
        if shift >= 12 {
            proof {
                if shift > 12 {
                    lemma_pow2_strictly_increases(12, shift as nat);
                }
                assert(significand * pow2(shift as nat) >= 0x10_0000_0000_0000 * pow2(12))
                    by (nonlinear_arith)
                    requires
                        significand >= 0x10_0000_0000_0000,
                        pow2(shift as nat) >= pow2(12),
                ;
            }
            return u64::MAX;
        }
        let mut whole: u128 = significand;
        let mut i: u64 = 0;
        while i < shift
            invariant
                i <= shift <= 11,
                significand < 0x20_0000_0000_0000,
                whole == significand * pow2(i as nat),
            decreases shift - i,
        {
            proof {
                lemma2_to64();
                lemma_pow2_unfold((i + 1) as nat);
                if i + 1 < 12 {
                    lemma_pow2_strictly_increases((i + 1) as nat, 12);
                }
                assert(significand * pow2((i + 1) as nat) == 2 * (significand * pow2(i as nat)))
                    by (nonlinear_arith)
                    requires
                        pow2((i + 1) as nat) == 2 * pow2(i as nat),
                ;
                assert(significand * pow2((i + 1) as nat) <= 0x20_0000_0000_0000 * pow2(12))
                    by (nonlinear_arith)
                    requires
                        significand < 0x20_0000_0000_0000,
                        pow2((i + 1) as nat) <= pow2(12),
                ;
            }
            whole = whole * 2;
            i = i + 1;
        }
        if whole > 0xFFFF_FFFF_FFFF_FFFF {
            u64::MAX
        } else {
            whole as u64
        }
    } else {
        let shift = 1075 - if exponent == 0 { 1 } else { exponent };
        if shift >= 54 {
            proof {
                let k = shift as nat;
                lemma_pow2_unfold(k);
                if k - 1 > 53 {
                    lemma_pow2_strictly_increases(53, (k - 1) as nat);
                }
                let n = (significand + pow2((k - 1) as nat)) as nat;
                assert(n < pow2(k));
                lemma_basic_div(n as int, pow2(k) as int);
            }
            return 0;
        }
        let mut divisor: u128 = 1;
        let mut i: u64 = 0;
        while i < shift
            invariant
                i <= shift <= 53,
                divisor == pow2(i as nat),
            decreases shift - i,
        {
            proof {
                lemma2_to64();
                lemma_pow2_unfold((i + 1) as nat);
                lemma_pow2_strictly_increases((i + 1) as nat, 64);
            }
            divisor = divisor * 2;
            i = i + 1;
        }
        proof {
            lemma_pow2_unfold(shift as nat);
            lemma_pow2_strictly_increases(shift as nat, 64);
        }
        let bytes = (significand + divisor / 2) / divisor;
        proof {
            assert(divisor / 2 == pow2((shift - 1) as nat));
            let n = (significand + divisor / 2) as int;
            assert(n / (divisor as int) <= n) by (nonlinear_arith)
                requires
                    n >= 0,
                    divisor >= 1,
            ;
        }
        bytes as u64
    }
}

/// A network byte rate as `1.5KiB/s`, a dash without a showable rate, marked
/// when stale.
pub fn format_rate(metric: &Metric<Option<Float64>>) -> (text: String)
    ensures
        text@ == rate_text(*metric),
{
    let mut text = freshness_marker(metric).to_string();
    let showable = match metric.value {
        Some(rate) => {
            let bits = rate.bits;
            let exponent = (bits / 0x10_0000_0000_0000) % 0x800;
            let fraction = bits % 0x10_0000_0000_0000;
            exponent != 0x7FF && (bits < 0x8000_0000_0000_0000 || (exponent == 0 && fraction
                == 0))
        },
        None => false,
    };
    match metric.value {
        Some(rate) => {
            if showable {
                text.append(format_bytes(rounded_rate_value(rate)).as_str());
                push_char(&mut text, '/');
                push_char(&mut text, 's');
            } else {
                push_char(&mut text, '—');
            }
        },
        None => push_char(&mut text, '—'),
    }
    text
}

/// The line of the theme menu for one theme: a marker on the selected theme,
/// then the theme's label.
pub open spec fn theme_menu_line(theme: Theme, selected: Theme) -> Seq<char> {
    seq![' '] + (if theme == selected {
        seq!['›']
    } else {
        seq![' ']
    }) + seq![' '] + label_of(theme)
}

/// The lines of the theme menu, one per built-in theme in menu order, each
/// with whether it is the selected (highlighted) one.
pub fn theme_menu_lines(selected: Theme) -> (lines: Vec<(String, bool)>)
    ensures
        lines@.len() == 10,
        forall|i: int|
            0 <= i < 10 ==> (#[trigger] lines@[i]).0@ == theme_menu_line(theme_at(i), selected),
        forall|i: int| 0 <= i < 10 ==> (#[trigger] lines@[i]).1 == (theme_at(i) == selected),
{
    let all = Theme::ALL;
    let mut lines: Vec<(String, bool)> = Vec::new();
    let mut i: usize = 0;
    while i < 10
        invariant
            i <= 10,
            all@ == Theme::ALL@,
            lines@.len() == i,
            forall|j: int|
                0 <= j < i ==> (#[trigger] lines@[j]).0@ == theme_menu_line(theme_at(j), selected),
            forall|j: int| 0 <= j < i ==> (#[trigger] lines@[j]).1 == (theme_at(j) == selected),
        decreases 10 - i,
    {
        let theme = all[i];
        assert(theme == theme_at(i as int));
        let is_selected = theme == selected;
        let mut line = String::new();
        push_char(&mut line, ' ');
        push_char(&mut line, if is_selected { '›' } else { ' ' });
        push_char(&mut line, ' ');
        line.append(theme.label());
        assert(line@ =~= theme_menu_line(theme, selected));
        lines.push((line, is_selected));
        i = i + 1;
    }
    lines
}

/// The width of the theme menu: 34 cells, or the whole area when narrower.
pub open spec fn theme_menu_width(width: u16) -> u16 {
    if width <= 34 {
        width
    } else {
        34
    }
}

/// `a + b` saturated to the range of `u16`.
pub open spec fn saturating_add_u16(a: u16, b: int) -> u16 {
    if a + b > u16::MAX {
        u16::MAX
    } else {
        (a + b) as u16
    }
}

/// Where the theme menu is drawn over an area at `(x, y)` of `width` by
/// `height` cells: 13 rows of up to 34 cells, centred (as `(x, y, width,
/// height)`).
pub fn theme_menu_area(x: u16, y: u16, width: u16, height: u16) -> (area: (u16, u16, u16, u16))
    ensures
        area.2 == theme_menu_width(width),
        area.3 == 13,
        area.0 == saturating_add_u16(x, saturating_sub(width as int, theme_menu_width(width) as int) / 2),
        area.1 == saturating_add_u16(y, saturating_sub(height as int, 13) / 2),
{
    let menu_width = if width <= 34 { width } else { 34 };
    let menu_height: u16 = 13;
    (
        x.saturating_add(width.saturating_sub(menu_width) / 2),
        y.saturating_add(height.saturating_sub(menu_height) / 2),
        menu_width,
        menu_height,
    )
}

/// What the GPU pane shows: an overview of every adapter, or the detail of
/// the adapter with the given identity.
#[derive(Clone, Copy, Debug, Default, PartialEq, Eq, Structural)]
pub enum GpuDisplayMode {
    #[default]
    Overview,
    Adapter(u64),
}

/// The text of the GPU pane, apart from the utilization bar.
#[derive(Debug, PartialEq, Eq)]
pub enum GpuPaneText {
    /// No snapshot yet.
    Collecting,
    /// The snapshot lists no hardware adapter.
    NoAdapters,
    /// One adapter: its position in the list, the title, the utilization
    /// readout and the dedicated and shared memory lines.
    Detail { adapter: usize, title: String, utilization: String, dedicated: String, shared: String },
    /// Every adapter: the title and one line per adapter that fits.
    Overview { title: String, lines: Vec<String> },
}

/// The GPU pane's text as character sequences.
pub enum GpuPaneModel {
    Collecting,
    NoAdapters,
    Detail {
        adapter: int,
        title: Seq<char>,
        utilization: Seq<char>,
        dedicated: Seq<char>,
        shared: Seq<char>,
    },
    Overview { title: Seq<char>, lines: Seq<Seq<char>> },
}

impl GpuPaneText {
    pub open spec fn view(self) -> GpuPaneModel {
        match self {
            GpuPaneText::Collecting => GpuPaneModel::Collecting,
            GpuPaneText::NoAdapters => GpuPaneModel::NoAdapters,
            GpuPaneText::Detail { adapter, title, utilization, dedicated, shared } => GpuPaneModel::Detail {
                adapter: adapter as int,
                title: title@,
                utilization: utilization@,
                dedicated: dedicated@,
                shared: shared@,
            },
            GpuPaneText::Overview { title, lines } => GpuPaneModel::Overview {
                title: title@,
                lines: Seq::new(lines@.len(), |i: int| lines@[i]@),
            },
        }
    }
}

/// The first position of the adapter with identity `id`, from `from` on.
pub open spec fn adapter_position(adapters: Seq<GpuAdapterSnapshot>, id: u64, from: int) -> Option<int>
    decreases adapters.len() - from,
{
    if from < 0 || from >= adapters.len() {
        None
    } else if adapters[from].id == id {
        Some(from)
    } else {
        adapter_position(adapters, id, from + 1)
    }
}

/// `count` spaces.
pub open spec fn spaces(count: int) -> Seq<char> {
    Seq::new(if count > 0 { count as nat } else { 0 }, |i: int| ' ')
}

/// A text cut or padded with spaces to exactly `width` characters, as
/// `{:<width.width}` formats it.
pub open spec fn fitted_left(text: Seq<char>, width: int) -> Seq<char> {
    if text.len() >= width {
        text.take(width)
    } else {
        text + spaces(width - text.len())
    }
}

/// A text padded on the left to at least `width` characters, as `{:>width}`
/// formats it.
pub open spec fn aligned_right(text: Seq<char>, width: int) -> Seq<char> {
    spaces(width - text.len()) + text
}

/// The overview line of one adapter: its name in 18 characters, then its
/// utilization right-aligned in 6.
pub open spec fn overview_line(adapter: GpuAdapterSnapshot) -> Seq<char> {
    fitted_left(adapter.name@, 18) + seq![' '] + aligned_right(
        optional_percent_text(adapter.utilization_percent),
        6,
    )
}

/// The GPU pane's text for a snapshot, a display mode and the number of rows
/// inside the pane's borders. An adapter that the mode names but the
/// snapshot does not list shows the overview instead.
pub open spec fn gpu_pane_of(system: Option<SystemSnapshot>, display: GpuDisplayMode, rows: u16) -> GpuPaneModel {
    match system {
        None => GpuPaneModel::Collecting,
        Some(system) => {
            let adapters = system.gpu.adapters.value@;
            let n = adapters.len() as int;
            let selected = match display {
                GpuDisplayMode::Overview => None,
                GpuDisplayMode::Adapter(id) => adapter_position(adapters, id, 0),
            };
            if n == 0 {
                GpuPaneModel::NoAdapters
            } else if selected is Some {
                let p = selected->0;
                let adapter = adapters[p];
                GpuPaneModel::Detail {
                    adapter: p,
                    title: " GPU — "@ + adapter.name@ + " ("@ + decimal((p + 1) as nat) + seq!['/']
                        + decimal(n as nat) + ") "@,
                    utilization: optional_percent_text(adapter.utilization_percent),
                    dedicated: "Dedicated  "@ + memory_readout_text(
                        adapter.dedicated_memory_used_bytes.value,
                        adapter.dedicated_memory_capacity_bytes.value,
                    ),
                    shared: "Shared     "@ + memory_readout_text(
                        adapter.shared_memory_used_bytes.value,
                        adapter.shared_memory_capacity_bytes.value,
                    ),
                }
            } else {
                let shown = if rows < n { rows as int } else { n };
                let lines = Seq::new(shown as nat, |i: int| overview_line(adapters[i]));
                GpuPaneModel::Overview {
                    title: " GPU · "@ + decimal(n as nat) + " adapters "@,
                    lines: if n > shown {
                        lines.push("+"@ + decimal((n - shown) as nat) + " more adapters"@)
                    } else {
                        lines
                    },
                }
            }
        },
    }
}

proof fn lemma_adapter_position(adapters: Seq<GpuAdapterSnapshot>, id: u64, from: int)
    ensures
        adapter_position(adapters, id, from) matches Some(p) ==> from <= p < adapters.len()
            && adapters[p].id == id,
    decreases adapters.len() - from,
{
    if 0 <= from < adapters.len() {
        lemma_adapter_position(adapters, id, from + 1);
    }
}

fn find_adapter(adapters: &Vec<GpuAdapterSnapshot>, id: u64) -> (position: Option<usize>)
    ensures
        match position {
            Some(p) => adapter_position(adapters@, id, 0) == Some(p as int) && p < adapters@.len(),
            None => adapter_position(adapters@, id, 0) is None,
        },
{
    proof {
        lemma_adapter_position(adapters@, id, 0);
    }
    let mut i: usize = 0;
    while i < adapters.len()
        invariant
            i <= adapters@.len(),
            adapter_position(adapters@, id, 0) == adapter_position(adapters@, id, i as int),
        decreases adapters@.len() - i,
    {
        if adapters[i].id == id {
            return Some(i);
        }
        i = i + 1;
    }
    None
}

fn push_spaces(text: &mut String, count: usize)
    ensures
        final(text)@ == old(text)@ + spaces(count as int),
{
    let mut i: usize = 0;
    while i < count
        invariant
            i <= count,
            text@ == old(text)@ + spaces(i as int),
        decreases count - i,
    {
        push_char(text, ' ');
        i = i + 1;
        assert(text@ =~= old(text)@ + spaces(i as int));
    }
}

fn overview_text(adapter: &GpuAdapterSnapshot) -> (line: String)
    ensures
        line@ == overview_line(*adapter),
{
    let name = chars_of(adapter.name.as_str());
    let mut line = String::new();
    let mut i: usize = 0;
    while i < name.len() && i < 18
        invariant
            i <= name@.len(),
            i <= 18,
            name@ == adapter.name@,
            line@ == name@.take(i as int),
        decreases 18 - i,
    {
        push_char(&mut line, name[i]);
        i = i + 1;
        assert(line@ =~= name@.take(i as int));
    }
    if i < 18 {
        push_spaces(&mut line, 18 - i);
    }
    assert(line@ =~= fitted_left(adapter.name@, 18));
    push_char(&mut line, ' ');
    let readout = format_optional_percent(&adapter.utilization_percent);
    let width = readout.unicode_len();
    if width < 6 {
        push_spaces(&mut line, 6 - width);
    } else {
        assert(spaces(6 - readout@.len()) =~= Seq::<char>::empty());
    }
    line.append(readout.as_str());
    assert(line@ =~= overview_line(*adapter));
    line
}

/// The GPU pane's text: a placeholder before the first snapshot or without
/// adapters, the detail of the adapter the display mode names, or one
/// line per adapter that fits in `rows` rows, with a count of the others.
pub fn gpu_pane_text(system: Option<&SystemSnapshot>, display: GpuDisplayMode, rows: u16) -> (pane: GpuPaneText)
    ensures
        pane.view() == gpu_pane_of(
            match system {
                Some(s) => Some(*s),
                None => None,
            },
            display,
            rows,
        ),
{
    let system = match system {
        Some(system) => system,
        None => return GpuPaneText::Collecting,
    };
    let adapters = &system.gpu.adapters.value;
    let n = adapters.len();
    if n == 0 {
        return GpuPaneText::NoAdapters;
    }
    let selected = match display {
        GpuDisplayMode::Overview => None,
        GpuDisplayMode::Adapter(id) => find_adapter(adapters, id),
    };
    match selected {
        Some(p) => {
            let adapter = &adapters[p];
            let mut title = " GPU — ".to_string();
            title.append(adapter.name.as_str());
            title.append(" (");
            push_decimal(&mut title, (p + 1) as u128);
            push_char(&mut title, '/');
            push_decimal(&mut title, n as u128);
            title.append(") ");
            let mut dedicated = "Dedicated  ".to_string();
            dedicated.append(
                optional_memory_readout(
                    &adapter.dedicated_memory_used_bytes,
                    &adapter.dedicated_memory_capacity_bytes,
                ).as_str(),
            );
            let mut shared = "Shared     ".to_string();
            shared.append(
                optional_memory_readout(
                    &adapter.shared_memory_used_bytes,
                    &adapter.shared_memory_capacity_bytes,
                ).as_str(),
            );
            let utilization = format_optional_percent(&adapter.utilization_percent);
            proof {
                let n_adapters = adapters@.len() as int;
                assert(title@ =~= " GPU — "@ + adapter.name@ + " ("@ + decimal((p + 1) as nat)
                    + seq!['/'] + decimal(n_adapters as nat) + ") "@);
                assert(adapter_position(adapters@, display->0, 0) == Some(p as int));
            }
            GpuPaneText::Detail { adapter: p, title, utilization, dedicated, shared }
        },
        None => {
            let shown: usize = if (rows as usize) < n { rows as usize } else { n };
            let mut lines: Vec<String> = Vec::new();
            let mut i: usize = 0;
            while i < shown
                invariant
                    i <= shown <= adapters@.len(),
                    lines@.len() == i,
                    forall|j: int| 0 <= j < i ==> (#[trigger] lines@[j])@ == overview_line(adapters@[j]),
                decreases shown - i,
            {
                lines.push(overview_text(&adapters[i]));
                i = i + 1;
            }
            let ghost shown_lines = Seq::new(lines@.len(), |j: int| lines@[j]@);
            let ghost expected = Seq::new(shown as nat, |j: int| overview_line(adapters@[j]));
            assert(shown_lines =~= expected);
            if n > shown {
                let mut more = "+".to_string();
                push_decimal(&mut more, (n - shown) as u128);
                more.append(" more adapters");
                let ghost more_view = more@;
                lines.push(more);
                assert(Seq::new(lines@.len(), |j: int| lines@[j]@) =~= expected.push(more_view));
            } else {
                assert(Seq::new(lines@.len(), |j: int| lines@[j]@) =~= expected);
            }
            let mut title = " GPU · ".to_string();
            push_decimal(&mut title, n as u128);
            title.append(" adapters ");
            let pane = GpuPaneText::Overview { title, lines };
            proof {
                let model = gpu_pane_of(Some(*system), display, rows);
                assert(pane.view() =~~= model);
            }
            pane
        },
    }
}

/// The GPU pane after the next press of `g`: from the overview to the first
/// adapter, from each adapter to the next, and from the last (or from an
/// adapter no longer listed) back to the overview.
pub open spec fn next_gpu_display_of(display: GpuDisplayMode, adapters: Seq<GpuAdapterSnapshot>) -> GpuDisplayMode {
    match display {
        GpuDisplayMode::Overview => if adapters.len() > 0 {
            GpuDisplayMode::Adapter(adapters[0].id)
        } else {
            GpuDisplayMode::Overview
        },
        GpuDisplayMode::Adapter(id) => match adapter_position(adapters, id, 0) {
            Some(p) => if p + 1 < adapters.len() {
                GpuDisplayMode::Adapter(adapters[p + 1].id)
            } else {
                GpuDisplayMode::Overview
            },
            None => GpuDisplayMode::Overview,
        },
    }
}

/// Cycles the GPU pane through the overview and each adapter in turn.
pub fn next_gpu_display(display: GpuDisplayMode, adapters: &Vec<GpuAdapterSnapshot>) -> (next: GpuDisplayMode)
    ensures
        next == next_gpu_display_of(display, adapters@),
{
    match display {
        GpuDisplayMode::Overview => {
            if adapters.len() > 0 {
                GpuDisplayMode::Adapter(adapters[0].id)
            } else {
                GpuDisplayMode::Overview
            }
        },
        GpuDisplayMode::Adapter(id) => match find_adapter(adapters, id) {
            Some(p) => {
                if p < adapters.len() - 1 {
                    GpuDisplayMode::Adapter(adapters[p + 1].id)
                } else {
                    GpuDisplayMode::Overview
                }
            },
            None => GpuDisplayMode::Overview,
        },
    }
}

} // verus!
