use std::time::Instant;
use wtop::theme::Theme;
use wtop::ui::{gpu_pane_text, next_gpu_display, theme_menu_area, theme_menu_lines, GpuDisplayMode, GpuPaneText};

use wtop::app::{SortColumn, SortDirection, SortSpec};
use wtop::model::{
    CommandLine, Float32, Float64, Freshness, GpuAdapterSnapshot, GpuSnapshot, History, Metric,
    NetworkInterfaceSnapshot, NetworkSnapshot, ProcessSnapshot, Snapshot, SystemSnapshot,
    UserSource,
};
use wtop::ui::{
    chart_cell_budget, cpu_history_rows, cpu_pane_height, cpu_pane_title, footer_text,
    format_bytes, format_metric_bytes, format_optional_percent, format_percent,
    format_percent_value, format_rate, format_thread_count, freshness_marker, logical_cpu_columns,
    logical_cpu_grid_rows, logical_cpu_meter_width, optional_memory_readout, process_name,
    process_table_row_capacity, process_table_title, resource_pane_height, snapshot_is_stale,
    terminal_is_too_small, CpuDisplayMode, ProcessRow, ProcessViewMode, MINIMUM_HEIGHT,
    MINIMUM_WIDTH,
};

fn float32(value: f32) -> Float32 {
    Float32 { bits: value.to_bits() }
}

fn process(pid: u32, name: &str) -> ProcessSnapshot {
    ProcessSnapshot {
        pid,
        parent_pid: None,
        name: name.into(),
        user: None,
        user_source: UserSource::Token,
        command_line: CommandLine::NotRequested,
        executable_path: None,
        cpu_percent: float32(0.0),
        thread_count: Metric::fresh(0),
        memory_bytes: 0,
    }
}

fn system() -> SystemSnapshot {
    SystemSnapshot {
        cpu_percent: Metric::fresh(float32(10.0)),
        logical_cpu_percentages: Metric::fresh(vec![float32(10.0)]),
        total_memory_bytes: Metric::fresh(100),
        used_memory_bytes: Metric::fresh(50),
        commit_charge_bytes: Metric::fresh(10),
        commit_limit_bytes: Metric::fresh(20),
        network: NetworkSnapshot::default(),
        gpu: GpuSnapshot::default(),
    }
}

fn snapshot(system: SystemSnapshot, processes: Vec<ProcessSnapshot>) -> Snapshot {
    Snapshot {
        generation: 1,
        collected_at: Instant::now(),
        system,
        processes: Metric::fresh(processes),
        history: History::default(),
    }
}

#[test]
fn byte_values_use_compact_binary_units() {
    assert_eq!(format_bytes(42), "42B");
    assert_eq!(format_bytes(1_024), "1.0KiB");
    assert_eq!(format_bytes(3 * 1024 * 1024 * 1024), "3.0GiB");
}

fn float_formatted_bytes(bytes: u64) -> String {
    const UNITS: [&str; 5] = ["B", "KiB", "MiB", "GiB", "TiB"];
    let mut value = bytes as f64;
    let mut unit_index = 0;
    while value >= 1024.0 && unit_index < UNITS.len() - 1 {
        value /= 1024.0;
        unit_index += 1;
    }
    if unit_index == 0 {
        format!("{bytes}B")
    } else {
        format!("{value:.1}{}", UNITS[unit_index])
    }
}

#[test]
fn byte_values_match_one_decimal_float_formatting() {
    let mut values: Vec<u64> = vec![
        0,
        1,
        1023,
        1024,
        1075,
        1126,
        1177,
        1280,
        1331,
        1536,
        1_048_575,
        1_048_576,
        1_101_004,
        1_153_434,
        5_000_000,
        1_073_741_823,
        1_073_741_824,
        1_099_511_627_775,
        1_099_511_627_776,
        1_209_462_790_553,
        (1 << 53) - 1,
        1 << 53,
        (1 << 53) + 1,
        (1 << 53) + 3,
        (1 << 60) + 12_345_678_901,
        u64::MAX - 1,
        u64::MAX,
    ];
    let mut seed: u64 = 0x9E37_79B9_7F4A_7C15;
    for _ in 0..20_000 {
        seed ^= seed << 13;
        seed ^= seed >> 7;
        seed ^= seed << 17;
        let shift = (seed % 64) as u32;
        values.push(seed >> shift);
    }
    for unit in [1024u64, 1 << 20, 1 << 30, 1 << 40] {
        for tenth in 0..200u64 {
            let tie = unit * tenth / 10 + unit / 20;
            values.push(tie);
            values.push(tie.saturating_sub(1));
            values.push(tie + 1);
        }
    }
    for bytes in values {
        assert_eq!(format_bytes(bytes), float_formatted_bytes(bytes), "bytes = {bytes}");
    }
}

#[test]
fn byte_metrics_carry_the_stale_marker() {
    assert_eq!(format_metric_bytes(&Metric::fresh(2048)), "2.0KiB");
    assert_eq!(format_metric_bytes(&Metric::stale(2048, "query failed")), "~2.0KiB");
    assert_eq!(format_thread_count(&Metric::fresh(12)), "12");
    assert_eq!(format_thread_count(&Metric::stale(12, "snapshot failed")), "~12");
    assert_eq!(freshness_marker(&Metric::fresh(())), "");
    assert_eq!(freshness_marker(&Metric::stale((), "x")), "~");
}

#[test]
fn gpu_memory_readouts_show_missing_sides_as_dashes() {
    let used = Metric::fresh(Some(512 * 1024 * 1024));
    let capacity = Metric::fresh(Some(4 * 1024 * 1024 * 1024));
    assert_eq!(optional_memory_readout(&used, &capacity), "512.0MiB/4.0GiB");
    assert_eq!(optional_memory_readout(&Metric::fresh(None), &capacity), "—/4.0GiB");
    assert_eq!(optional_memory_readout(&used, &Metric::fresh(None)), "—");
    assert_eq!(optional_memory_readout(&Metric::fresh(None), &Metric::fresh(None)), "—");
}

#[test]
fn minimum_terminal_size_is_enforced_in_both_dimensions() {
    assert!(terminal_is_too_small(MINIMUM_WIDTH - 1, MINIMUM_HEIGHT));
    assert!(terminal_is_too_small(MINIMUM_WIDTH, MINIMUM_HEIGHT - 1));
    assert!(!terminal_is_too_small(MINIMUM_WIDTH, MINIMUM_HEIGHT));
}

#[test]
fn table_capacity_excludes_dashboard_and_table_chrome() {
    let mode = CpuDisplayMode::Summary;
    assert_eq!(process_table_row_capacity(64, 26, mode, 0), 5);
    assert_eq!(process_table_row_capacity(64, 25, mode, 0), 0);
    assert_eq!(process_table_row_capacity(64, 28, mode, 0), 1);
    assert_eq!(process_table_row_capacity(63, 28, mode, 0), 0);
}

#[test]
fn cpu_history_grows_only_when_the_process_table_keeps_a_row() {
    let mode = CpuDisplayMode::Summary;
    assert_eq!(cpu_history_rows(64, 26, mode), 0);
    assert_eq!(cpu_history_rows(64, 28, mode), 6);
    assert_eq!(cpu_history_rows(64, 30, mode), 8);
}

#[test]
fn logical_cpu_mode_has_no_history_and_grows_with_the_grid() {
    assert_eq!(CpuDisplayMode::default(), CpuDisplayMode::LogicalCpus);
    assert_eq!(cpu_history_rows(64, 40, CpuDisplayMode::LogicalCpus), 0);
    assert_eq!(cpu_pane_height(64, 40, CpuDisplayMode::LogicalCpus, 4), 4);
    assert_eq!(cpu_pane_height(64, 40, CpuDisplayMode::LogicalCpus, 0), 3);
    assert_eq!(process_table_row_capacity(64, 40, CpuDisplayMode::LogicalCpus, 4), 18);
    assert_eq!(resource_pane_height(64), 12);
    assert_eq!(resource_pane_height(80), 10);
    assert_eq!(resource_pane_height(110), 5);
}

#[test]
fn charts_shrink_to_the_actual_readout_width_and_can_be_omitted() {
    assert_eq!(chart_cell_budget(58, 35), 13);
    assert_eq!(chart_cell_budget(40, 35), 0);
}

#[test]
fn logical_cpu_grid_uses_two_columns_when_they_fit() {
    assert_eq!(logical_cpu_grid_rows(4, 58), 2);
    assert_eq!(logical_cpu_grid_rows(4, 51), 4);
    assert_eq!(logical_cpu_grid_rows(0, 58), 1);
    assert_eq!(logical_cpu_columns(52), 2);
    assert_eq!(logical_cpu_columns(51), 1);
    assert_eq!(logical_cpu_meter_width(58, 2), 27);
    assert_eq!(logical_cpu_meter_width(58, 1), 58);
}

#[test]
fn tree_names_use_branch_connectors_and_ancestor_guides() {
    let process = process(1, "worker.exe");
    let branch = ProcessRow {
        process: &process,
        ancestor_has_next_siblings: Vec::new(),
        is_last_sibling: false,
        has_children: true,
    };
    let leaf = ProcessRow {
        process: &process,
        ancestor_has_next_siblings: vec![true, false],
        is_last_sibling: true,
        has_children: false,
    };

    assert_eq!(process_name(&branch, ProcessViewMode::Tree), "worker.exe");
    assert_eq!(process_name(&leaf, ProcessViewMode::Tree), "│       └── worker.exe");
    assert_eq!(process_name(&leaf, ProcessViewMode::Flat), "worker.exe");
}

#[test]
fn table_titles_name_the_view_sort_and_filter() {
    let sort = SortSpec { column: SortColumn::CpuPercent, direction: SortDirection::Descending };
    assert_eq!(process_table_title(ProcessViewMode::Flat, sort, ""), " Processes [Flat · CPU↓] ");
    assert_eq!(
        process_table_title(ProcessViewMode::Tree, SortSpec::default(), "svc"),
        " Processes [Tree · PID↑] / svc "
    );
}

#[test]
fn footer_lists_the_keys_of_the_current_mode() {
    assert_eq!(
        footer_text(None, None, false, "", ProcessViewMode::Flat),
        "c CPU  g GPU  t Tree  o Theme  x Kill  s Sort  S Reverse  / Filter  q Quit"
    );
    assert_eq!(
        footer_text(None, None, false, "", ProcessViewMode::Tree),
        "c CPU  g GPU  t Flat  o Theme  x Kill  s Sort  / Filter  q Quit"
    );
    assert_eq!(
        footer_text(None, Some("Terminated 42"), true, "svc", ProcessViewMode::Flat),
        "Terminated 42  /svc  Enter apply  Esc cancel  Ctrl+U clear"
    );
    let mut stale_system = system();
    stale_system.commit_charge_bytes = Metric::stale(10, "query failed");
    let stale = snapshot(stale_system, Vec::new());
    assert_eq!(
        footer_text(Some(&stale), None, false, "svc", ProcessViewMode::Tree),
        "~ Stale  Filter: svc  c CPU  g GPU  t View  o Theme  x Kill  s Sort  S Reverse  / Edit  q Quit"
    );
}

#[test]
fn snapshots_are_stale_when_any_reading_was_carried_over() {
    assert!(!snapshot_is_stale(&snapshot(system(), vec![process(1, "a.exe")])));

    let mut stale_thread = process(2, "b.exe");
    stale_thread.thread_count = Metric::stale(3, "snapshot failed");
    assert!(snapshot_is_stale(&snapshot(system(), vec![process(1, "a.exe"), stale_thread])));

    let mut with_interface = system();
    with_interface.network.interfaces = Metric::fresh(vec![NetworkInterfaceSnapshot {
        id: 1,
        alias: "Ethernet".into(),
        operational: true,
        transmit_bytes_per_second: Metric::fresh(Some(Float64 { bits: 1.0f64.to_bits() })),
        receive_bytes_per_second: Metric::stale(None, "counter reset"),
    }]);
    assert!(snapshot_is_stale(&snapshot(with_interface, Vec::new())));

    let mut with_adapter = system();
    with_adapter.gpu.adapters = Metric::fresh(vec![GpuAdapterSnapshot {
        id: 7,
        name: "GPU".into(),
        utilization_percent: Metric::fresh(Some(float32(3.0))),
        dedicated_memory_used_bytes: Metric::fresh(Some(1)),
        dedicated_memory_capacity_bytes: Metric::fresh(Some(2)),
        shared_memory_used_bytes: Metric::fresh(None),
        shared_memory_capacity_bytes: Metric::stale(Some(4), "query failed"),
    }]);
    assert!(snapshot_is_stale(&snapshot(with_adapter, Vec::new())));

    let mut stale_cpu = system();
    stale_cpu.cpu_percent = Metric::stale(float32(1.0), "sample failed");
    assert!(snapshot_is_stale(&snapshot(stale_cpu, Vec::new())));
}

#[test]
fn a_cpu_graph_always_leaves_a_table_row() {
    let mode = CpuDisplayMode::Summary;
    for width in [64u16, 80, 109, 110, 200] {
        for height in 26u16..60 {
            if cpu_history_rows(width, height, mode) > 0 {
                assert!(process_table_row_capacity(width, height, mode, 8) >= 1, "{width}x{height}");
            }
        }
    }
}

#[test]
fn cloned_snapshots_keep_their_timestamp_and_readings() {
    let original = snapshot(system(), vec![process(1, "a.exe")]);
    let copy = original.clone();
    assert_eq!(copy.collected_at, original.collected_at);
    assert_eq!(copy, original);
}

#[test]
fn stale_percentages_have_a_compact_marker() {
    let metric = Metric {
        value: float32(12.5),
        freshness: Freshness::Stale { reason: "sample failed".into() },
    };

    assert_eq!(format_percent(&metric), "~12.5%");
}

#[test]
fn percentages_match_one_decimal_float_formatting() {
    let mut values: Vec<f32> = vec![
        0.0,
        -0.0,
        0.04,
        0.05,
        0.15,
        0.25,
        0.35,
        0.45,
        1.25,
        12.5,
        12.55,
        31.25,
        99.95,
        99.96,
        100.0,
        -1.0,
        -0.04,
        -0.05,
        f32::MIN_POSITIVE,
        f32::from_bits(1),
        f32::MAX,
        f32::MIN,
        16_777_216.0,
        16_777_217.0,
        1.0e30,
        f32::INFINITY,
        f32::NEG_INFINITY,
        f32::NAN,
        -f32::NAN,
    ];
    let mut seed: u32 = 0x2545_F491;
    for _ in 0..50_000 {
        seed ^= seed << 13;
        seed ^= seed >> 17;
        seed ^= seed << 5;
        values.push(f32::from_bits(seed));
    }
    for tenths in 0..=1000u32 {
        let tie = (tenths as f32) / 10.0 + 0.05;
        values.push(tie);
        values.push(tenths as f32 / 20.0);
    }
    for value in values {
        assert_eq!(
            format_percent_value(float32(value)),
            format!("{value:.1}%"),
            "bits = {:#010x}",
            value.to_bits()
        );
    }
}

#[test]
fn optional_percentages_show_a_dash_when_missing() {
    assert_eq!(format_optional_percent(&Metric::fresh(Some(float32(3.25)))), "3.2%");
    assert_eq!(format_optional_percent(&Metric::fresh(None)), "—");
    assert_eq!(format_optional_percent(&Metric::stale(None, "query failed")), "~—");
}

#[test]
fn cpu_pane_titles_show_the_total_usage() {
    assert_eq!(cpu_pane_title(None), " CPU · --% ");
    assert_eq!(cpu_pane_title(Some(&system())), " CPU · 10.0% ");
}

fn float_formatted_rate(rate: Option<f64>) -> String {
    match rate.filter(|rate| rate.is_finite() && *rate >= 0.0) {
        Some(rate) => format!("{}/s", float_formatted_bytes(rate.round() as u64)),
        None => "—".to_string(),
    }
}

#[test]
fn rates_round_to_whole_bytes_per_second() {
    let mut rates: Vec<f64> = vec![
        0.0,
        -0.0,
        0.49,
        0.5,
        1.5,
        2.5,
        4000.0,
        1023.5,
        1024.4,
        1.0e-300,
        f64::from_bits(1),
        9.0e15,
        18_446_744_073_709_551_615.0,
        1.0e300,
        f64::MAX,
        -1.0,
        -1.0e-300,
        f64::INFINITY,
        f64::NEG_INFINITY,
        f64::NAN,
    ];
    let mut seed: u64 = 0x9E37_79B9_7F4A_7C15;
    for _ in 0..50_000 {
        seed ^= seed << 13;
        seed ^= seed >> 7;
        seed ^= seed << 17;
        rates.push(f64::from_bits(seed));
        rates.push(f64::from_bits(seed >> 2));
        rates.push((seed >> 20) as f64 / 8.0);
    }
    for rate in rates {
        let metric = Metric::fresh(Some(Float64 { bits: rate.to_bits() }));
        assert_eq!(format_rate(&metric), float_formatted_rate(Some(rate)), "bits = {:#018x}", rate.to_bits());
    }
    assert_eq!(format_rate(&Metric::fresh(None)), "—");
    assert_eq!(
        format_rate(&Metric::stale(Some(Float64 { bits: 4000.0f64.to_bits() }), "counter reset")),
        "~3.9KiB/s"
    );
}

#[test]
fn the_theme_menu_lists_every_theme_and_marks_the_selected_one() {

    let lines = theme_menu_lines(Theme::Nord);
    assert_eq!(lines.len(), 10);
    assert_eq!(lines[0], ("   Default".to_string(), false));
    assert_eq!(lines[6], (" › Nord".to_string(), true));
    assert_eq!(lines[2].0, "   Black on White");
    assert_eq!(lines.iter().filter(|(_, selected)| *selected).count(), 1);
}

#[test]
fn the_theme_menu_is_centred_and_clamped() {

    assert_eq!(theme_menu_area(0, 0, 100, 40), (33, 13, 34, 13));
    assert_eq!(theme_menu_area(2, 1, 20, 10), (2, 1, 20, 13));
    assert_eq!(theme_menu_area(u16::MAX - 1, 5, 100, 13), (u16::MAX, 5, 34, 13));
}

fn adapter(id: u64, name: &str, utilization: Option<f32>) -> GpuAdapterSnapshot {
    GpuAdapterSnapshot {
        id,
        name: name.into(),
        utilization_percent: Metric::fresh(utilization.map(float32)),
        dedicated_memory_used_bytes: Metric::fresh(Some(512 * 1024 * 1024)),
        dedicated_memory_capacity_bytes: Metric::fresh(Some(4 * 1024 * 1024 * 1024)),
        shared_memory_used_bytes: Metric::fresh(None),
        shared_memory_capacity_bytes: Metric::fresh(Some(8 * 1024 * 1024 * 1024)),
    }
}

fn gpu_system(adapters: Vec<GpuAdapterSnapshot>) -> SystemSnapshot {
    let mut system = system();
    system.gpu.adapters = Metric::fresh(adapters);
    system
}

#[test]
fn the_gpu_pane_shows_an_overview_or_one_adapter() {
    assert_eq!(gpu_pane_text(None, GpuDisplayMode::Overview, 3), GpuPaneText::Collecting);
    assert_eq!(gpu_pane_text(Some(&gpu_system(Vec::new())), GpuDisplayMode::Overview, 3), GpuPaneText::NoAdapters);

    let system = gpu_system(vec![
        adapter(7, "NVIDIA GeForce RTX 4090 Laptop GPU", Some(12.5)),
        adapter(9, "Intel UHD", None),
        adapter(11, "Other", Some(100.0)),
    ]);
    assert_eq!(
        gpu_pane_text(Some(&system), GpuDisplayMode::Overview, 2),
        GpuPaneText::Overview {
            title: " GPU · 3 adapters ".to_string(),
            lines: vec![
                format!("{:<18.18} {:>6}", "NVIDIA GeForce RTX 4090 Laptop GPU", "12.5%"),
                format!("{:<18.18} {:>6}", "Intel UHD", "—"),
                "+1 more adapters".to_string(),
            ],
        }
    );
    assert_eq!(
        gpu_pane_text(Some(&system), GpuDisplayMode::Adapter(9), 2),
        GpuPaneText::Detail {
            adapter: 1,
            title: " GPU — Intel UHD (2/3) ".to_string(),
            utilization: "—".to_string(),
            dedicated: "Dedicated  512.0MiB/4.0GiB".to_string(),
            shared: "Shared     —/8.0GiB".to_string(),
        }
    );
    match gpu_pane_text(Some(&system), GpuDisplayMode::Adapter(42), 5) {
        GpuPaneText::Overview { lines, .. } => assert_eq!(lines.len(), 3),
        other => panic!("expected the overview, got {other:?}"),
    }
}

#[test]
fn g_cycles_the_overview_and_each_adapter() {
    let adapters = vec![adapter(7, "A", None), adapter(9, "B", None)];
    let mut display = GpuDisplayMode::default();
    assert_eq!(display, GpuDisplayMode::Overview);
    display = next_gpu_display(display, &adapters);
    assert_eq!(display, GpuDisplayMode::Adapter(7));
    display = next_gpu_display(display, &adapters);
    assert_eq!(display, GpuDisplayMode::Adapter(9));
    display = next_gpu_display(display, &adapters);
    assert_eq!(display, GpuDisplayMode::Overview);
    assert_eq!(next_gpu_display(GpuDisplayMode::Overview, &Vec::new()), GpuDisplayMode::Overview);
    assert_eq!(next_gpu_display(GpuDisplayMode::Adapter(3), &adapters), GpuDisplayMode::Overview);
}
