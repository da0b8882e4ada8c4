use wtop::model::{
    CommandLine, Float32, Freshness, History, HistorySample, Metric, ProcessSnapshot, UserSource,
    HISTORY_CAPACITY,
};

fn sample(cpu_percent: f32) -> HistorySample {
    HistorySample { cpu_percent: Float32 { bits: cpu_percent.to_bits() } }
}

fn cpu_of(sample: &HistorySample) -> f32 {
    f32::from_bits(sample.cpu_percent.bits)
}

fn process(pid: u32, name: &str, user_source: UserSource) -> ProcessSnapshot {
    ProcessSnapshot {
        pid,
        parent_pid: None,
        name: name.into(),
        user: None,
        user_source,
        command_line: CommandLine::NotRequested,
        executable_path: None,
        cpu_percent: Float32 { bits: 0.0f32.to_bits() },
        thread_count: Metric::fresh(1),
        memory_bytes: 0,
    }
}

#[test]
fn stale_metrics_keep_the_last_value_and_reason() {
    let metric = Metric::stale(42_u64, "system query failed");

    assert_eq!(metric.value, 42);
    assert_eq!(metric.freshness, Freshness::Stale { reason: "system query failed".into() });
}

#[test]
fn fresh_metrics_carry_no_reason() {
    let metric = Metric::fresh(7_u64);
    assert_eq!(metric.value, 7);
    assert_eq!(metric.freshness, Freshness::Fresh);
}

#[test]
fn user_display_marks_a_missing_process_owner() {
    let mut process = process(1, "example.exe", UserSource::Token);
    process.executable_path = Some("example.exe".into());
    assert_eq!(process.user_display(), "<unknown>");

    process.user = Some("Alice".into());
    assert_eq!(process.user_display(), "Alice");
}

#[test]
fn system_process_displays_as_kernel_not_unknown() {
    let process = process(4, "System", UserSource::Restricted);

    assert_eq!(process.user_display(), "<kernel>");
}

#[test]
fn restricted_processes_say_so() {
    let mut process = process(812, "lsass.exe", UserSource::Restricted);
    process.user = Some("SYSTEM".into());
    assert_eq!(process.user_display(), "<restricted>");
}

#[test]
fn command_line_display_covers_every_state() {
    let mut process = process(7, "worker.exe", UserSource::Token);
    assert_eq!(process.command_line_display(), "<pending>");

    process.command_line = CommandLine::Present(String::new());
    assert_eq!(process.command_line_display(), "<empty>");

    process.command_line = CommandLine::Present("worker.exe --port 8080".into());
    assert_eq!(process.command_line_display(), "worker.exe --port 8080");

    process.command_line = CommandLine::Unavailable;
    assert_eq!(process.command_line_display(), "<unavailable>");

    process.executable_path = Some("C:\\Tools\\worker.exe".into());
    assert_eq!(process.command_line_display(), "<unavailable> C:\\Tools\\worker.exe");
}

#[test]
fn history_evicts_the_oldest_sample_at_its_capacity() {
    let mut history = History::with_capacity(2);
    history.push(sample(1.0));
    history.push(sample(2.0));
    history.push(sample(3.0));

    assert_eq!(history.len(), 2);
    assert_eq!(cpu_of(history.samples().front().unwrap()), 2.0);
    assert_eq!(cpu_of(history.samples().back().unwrap()), 3.0);
}

#[test]
fn default_history_retains_the_full_window_newest_last() {
    let mut history = History::default();
    for index in 0..(HISTORY_CAPACITY + 3) {
        history.push(sample(index as f32));
    }

    assert_eq!(history.len(), HISTORY_CAPACITY);
    assert_eq!(cpu_of(history.samples().front().unwrap()), 3.0);
    assert_eq!(cpu_of(history.samples().back().unwrap()), (HISTORY_CAPACITY + 2) as f32);
}

#[test]
fn new_histories_are_empty() {
    let history = History::new();
    assert!(history.is_empty());
    assert_eq!(history.len(), 0);
    let copy = history.clone();
    assert!(copy.is_empty());
}

#[test]
fn cloned_histories_keep_their_samples_and_capacity() {
    let mut history = History::with_capacity(2);
    history.push(sample(1.0));
    let mut copy = history.clone();
    copy.push(sample(2.0));
    copy.push(sample(3.0));
    assert_eq!(history.len(), 1);
    assert_eq!(copy.len(), 2);
    assert_eq!(cpu_of(copy.samples().front().unwrap()), 2.0);
}

#[test]
fn float_keys_follow_total_cmp() {
    let values = [
        f32::NEG_INFINITY,
        -1.5,
        -0.0,
        0.0,
        1.0e-40,
        0.5,
        12.0,
        f32::INFINITY,
        f32::NAN,
        -f32::NAN,
    ];
    for a in values {
        for b in values {
            let key_a = Float32 { bits: a.to_bits() }.total_order_key();
            let key_b = Float32 { bits: b.to_bits() }.total_order_key();
            assert_eq!(key_a.cmp(&key_b), a.total_cmp(&b), "{a} vs {b}");
        }
    }
}
