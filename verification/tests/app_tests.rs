use std::sync::Arc;
use std::time::Instant;

use wtop::app::{App, KeyCode, SortColumn, SortDirection, SortSpec};
use wtop::model::{
    CommandLine, Float32, GpuSnapshot, History, Metric, NetworkSnapshot, ProcessSnapshot,
    Snapshot, SystemSnapshot, UserSource,
};

fn percent(value: f32) -> Float32 {
    Float32 { bits: value.to_bits() }
}

fn process(pid: u32, name: &str, command_line: CommandLine, cpu_percent: f32) -> ProcessSnapshot {
    ProcessSnapshot {
        pid,
        parent_pid: None,
        name: name.into(),
        user: None,
        user_source: UserSource::Token,
        command_line,
        executable_path: None,
        cpu_percent: percent(cpu_percent),
        thread_count: Metric::fresh(1),
        memory_bytes: u64::from(pid) * 1024,
    }
}

fn snapshot(processes: Vec<ProcessSnapshot>) -> Arc<Snapshot> {
    Arc::new(Snapshot {
        generation: 1,
        collected_at: Instant::now(),
        system: SystemSnapshot {
            cpu_percent: Metric::fresh(percent(0.0)),
            logical_cpu_percentages: Metric::fresh(Vec::new()),
            total_memory_bytes: Metric::fresh(0),
            used_memory_bytes: Metric::fresh(0),
            commit_charge_bytes: Metric::fresh(0),
            commit_limit_bytes: Metric::fresh(0),
            network: NetworkSnapshot::default(),
            gpu: GpuSnapshot::default(),
        },
        processes: Metric::fresh(processes),
        history: History::default(),
    })
}

fn visible_pids(app: &App) -> Vec<u32> {
    app.visible_processes().into_iter().map(|process| process.pid).collect()
}

#[test]
fn quit_keys_request_a_clean_exit() {
    for key in [KeyCode::Char('q'), KeyCode::Esc] {
        let mut app = App::new();
        app.handle_key(key);
        assert!(app.should_quit());
    }
}

#[test]
fn filter_matches_process_name_and_present_command_line() {
    let mut app = App::new();
    app.set_snapshot(snapshot(vec![
        process(1, "services.exe", CommandLine::Unavailable, 1.0),
        process(
            2,
            "worker.exe",
            CommandLine::Present("worker.exe --http-port 8080".into()),
            2.0,
        ),
    ]));

    app.set_filter("SERV");
    assert_eq!(app.visible_processes()[0].pid, 1);

    app.set_filter("HTTP-PORT");
    assert_eq!(app.visible_processes()[0].pid, 2);

    app.set_filter("missing");
    assert!(app.visible_processes().is_empty());
    assert_eq!(app.selected_pid(), None);
}

#[test]
fn sorting_uses_pid_as_a_deterministic_tie_breaker() {
    let mut app = App::new();
    app.set_snapshot(snapshot(vec![
        process(9, "same.exe", CommandLine::NotRequested, 2.0),
        process(3, "same.exe", CommandLine::NotRequested, 2.0),
        process(7, "other.exe", CommandLine::NotRequested, 4.0),
    ]));
    app.set_sort(SortSpec { column: SortColumn::CpuPercent, direction: SortDirection::Descending });

    assert_eq!(visible_pids(&app), vec![7, 3, 9]);
}

#[test]
fn selection_survives_a_refresh_that_reorders_processes() {
    let mut app = App::new();
    app.set_snapshot(snapshot(vec![
        process(10, "first.exe", CommandLine::NotRequested, 1.0),
        process(20, "second.exe", CommandLine::NotRequested, 2.0),
    ]));
    app.set_sort(SortSpec { column: SortColumn::CpuPercent, direction: SortDirection::Descending });
    assert!(app.select_pid(20));

    app.set_snapshot(snapshot(vec![
        process(10, "first.exe", CommandLine::NotRequested, 9.0),
        process(20, "second.exe", CommandLine::NotRequested, 1.0),
    ]));

    assert_eq!(app.selected_pid(), Some(20));
}

#[test]
fn selection_moves_to_the_previous_index_when_a_process_exits() {
    let mut app = App::new();
    app.set_snapshot(snapshot(vec![
        process(10, "first.exe", CommandLine::NotRequested, 1.0),
        process(20, "second.exe", CommandLine::NotRequested, 2.0),
        process(30, "third.exe", CommandLine::NotRequested, 3.0),
    ]));
    app.set_sort(SortSpec { column: SortColumn::Pid, direction: SortDirection::Ascending });
    app.set_filter("second");
    assert_eq!(app.selected_pid(), Some(20));

    app.set_filter("");
    app.set_snapshot(snapshot(vec![
        process(10, "first.exe", CommandLine::NotRequested, 1.0),
        process(30, "third.exe", CommandLine::NotRequested, 3.0),
    ]));

    assert_eq!(app.selected_pid(), Some(30));
}

#[test]
fn down_navigation_scrolls_the_viewport_to_keep_selection_visible() {
    let mut app = App::new();
    app.set_viewport_rows(3);
    app.set_snapshot(snapshot(
        (1..=6).map(|pid| process(pid, "worker.exe", CommandLine::NotRequested, 0.0)).collect(),
    ));

    for _ in 0..3 {
        app.handle_key(KeyCode::Down);
    }

    assert_eq!(app.selected_pid(), Some(4));
    assert_eq!(app.vertical_offset(), 1);
    assert_eq!(app.selected_viewport_index(), Some(2));
    assert_eq!(
        app.viewport_processes().into_iter().map(|process| process.pid).collect::<Vec<_>>(),
        vec![2, 3, 4]
    );
}

#[test]
fn page_home_and_end_navigation_clamp_to_the_process_list() {
    let mut app = App::new();
    app.set_viewport_rows(3);
    app.set_snapshot(snapshot(
        (1..=8).map(|pid| process(pid, "worker.exe", CommandLine::NotRequested, 0.0)).collect(),
    ));

    app.handle_key(KeyCode::End);
    assert_eq!(app.selected_pid(), Some(8));
    assert_eq!(app.vertical_offset(), 5);

    app.handle_key(KeyCode::PageUp);
    assert_eq!(app.selected_pid(), Some(5));
    assert_eq!(app.vertical_offset(), 4);

    app.handle_key(KeyCode::Home);
    assert_eq!(app.selected_pid(), Some(1));
    assert_eq!(app.vertical_offset(), 0);

    app.handle_key(KeyCode::PageDown);
    assert_eq!(app.selected_pid(), Some(4));
    assert_eq!(app.vertical_offset(), 1);

    app.handle_key(KeyCode::Up);
    assert_eq!(app.selected_pid(), Some(3));
    assert_eq!(app.vertical_offset(), 1);
}

#[test]
fn navigation_on_an_empty_process_list_keeps_the_viewport_safe() {
    let mut app = App::new();
    app.set_viewport_rows(3);
    app.set_snapshot(snapshot(Vec::new()));

    for key in [
        KeyCode::Up,
        KeyCode::Down,
        KeyCode::PageUp,
        KeyCode::PageDown,
        KeyCode::Home,
        KeyCode::End,
    ] {
        app.handle_key(key);
    }

    assert_eq!(app.selected_pid(), None);
    assert_eq!(app.vertical_offset(), 0);
    assert_eq!(app.selected_viewport_index(), None);
}

#[test]
fn resizing_the_viewport_keeps_the_selected_process_visible() {
    let mut app = App::new();
    app.set_viewport_rows(4);
    app.set_snapshot(snapshot(
        (1..=8).map(|pid| process(pid, "worker.exe", CommandLine::NotRequested, 0.0)).collect(),
    ));
    app.handle_key(KeyCode::End);

    app.set_viewport_rows(2);

    assert_eq!(app.selected_pid(), Some(8));
    assert_eq!(app.vertical_offset(), 6);
    assert_eq!(app.selected_viewport_index(), Some(1));
}

#[test]
fn command_line_navigation_clamps_and_resets_for_a_new_selection() {
    let mut app = App::new();
    app.set_viewport_rows(2);
    app.set_command_line_viewport_cells(4);
    app.set_snapshot(snapshot(vec![
        process(1, "first.exe", CommandLine::Present("abcdef".into()), 0.0),
        process(2, "second.exe", CommandLine::Present("uvwxyz".into()), 0.0),
    ]));

    for _ in 0..10 {
        app.handle_key(KeyCode::Right);
    }
    assert_eq!(app.command_line_offset_cells(), 3);

    app.handle_key(KeyCode::Left);
    assert_eq!(app.command_line_offset_cells(), 2);

    app.handle_key(KeyCode::Down);
    assert_eq!(app.selected_pid(), Some(2));
    assert_eq!(app.command_line_offset_cells(), 0);
}

#[test]
fn widening_the_command_line_viewport_clamps_the_offset() {
    let mut app = App::new();
    app.set_command_line_viewport_cells(4);
    app.set_snapshot(snapshot(vec![process(
        1,
        "worker.exe",
        CommandLine::Present("abcdef".into()),
        0.0,
    )]));

    app.set_command_line_offset_cells(3);
    app.set_command_line_viewport_cells(6);

    assert_eq!(app.command_line_offset_cells(), 0);
}

#[test]
fn visible_rows_are_sorted_and_each_matching_process_appears_once() {
    let mut app = App::new();
    app.set_snapshot(snapshot(vec![
        process(5, "Beta.exe", CommandLine::NotRequested, 3.0),
        process(2, "alpha.exe", CommandLine::NotRequested, 1.0),
        process(9, "gamma.exe", CommandLine::Present("gamma --beta".into()), 2.0),
        process(1, "delta.exe", CommandLine::NotRequested, 4.0),
    ]));
    app.set_sort(SortSpec { column: SortColumn::Name, direction: SortDirection::Ascending });
    assert_eq!(visible_pids(&app), vec![2, 5, 1, 9]);

    app.set_filter("BETA");
    assert_eq!(visible_pids(&app), vec![5, 9]);

    app.set_sort(SortSpec { column: SortColumn::Memory, direction: SortDirection::Descending });
    assert_eq!(visible_pids(&app), vec![9, 5]);
}

#[test]
fn cpu_sort_follows_the_total_order_of_floats() {
    let mut app = App::new();
    app.set_snapshot(snapshot(vec![
        process(1, "a.exe", CommandLine::NotRequested, 0.5),
        process(2, "b.exe", CommandLine::NotRequested, -0.0),
        process(3, "c.exe", CommandLine::NotRequested, 0.0),
        process(4, "d.exe", CommandLine::NotRequested, 12.0),
    ]));
    app.set_sort(SortSpec { column: SortColumn::CpuPercent, direction: SortDirection::Ascending });
    assert_eq!(visible_pids(&app), vec![2, 3, 1, 4]);
}

#[test]
fn quitting_with_the_other_keys_does_nothing() {
    let mut app = App::new();
    app.handle_key(KeyCode::Char('x'));
    app.handle_key(KeyCode::Other);
    assert!(!app.should_quit());
    assert_eq!(app.selected_pid(), None);
}

#[test]
fn selecting_an_absent_process_keeps_the_selection() {
    let mut app = App::new();
    app.set_snapshot(snapshot(vec![
        process(10, "first.exe", CommandLine::NotRequested, 1.0),
        process(20, "second.exe", CommandLine::NotRequested, 2.0),
    ]));
    assert_eq!(app.selected_pid(), Some(10));
    assert!(!app.select_pid(99));
    assert_eq!(app.selected_pid(), Some(10));
}
