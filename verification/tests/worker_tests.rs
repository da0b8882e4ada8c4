use std::time::Duration;

use wtop::worker::RefreshCadence;

fn nanos(duration: Duration) -> u128 {
    duration.as_nanos()
}

#[test]
fn cadence_runs_immediately_then_waits_after_collection_completes() {
    let started_at = 0;
    let mut cadence = RefreshCadence::new(nanos(Duration::from_secs(1)), started_at);

    assert_eq!(Duration::from_nanos(cadence.wait_duration(started_at) as u64), Duration::ZERO);

    let collection_finished_at = started_at + nanos(Duration::from_millis(250));
    cadence.record_refresh_completed(collection_finished_at);

    assert_eq!(
        Duration::from_nanos(
            cadence.wait_duration(collection_finished_at + nanos(Duration::from_millis(400))) as u64
        ),
        Duration::from_millis(600)
    );
}

#[test]
fn cadence_delays_the_first_published_refresh_after_cpu_warmup() {
    let started_at = 0;
    let mut cadence = RefreshCadence::new(nanos(Duration::from_secs(1)), started_at);

    cadence.record_refresh_completed(started_at);

    assert_eq!(Duration::from_nanos(cadence.wait_duration(started_at) as u64), Duration::from_secs(1));
}

#[test]
fn a_slow_collection_never_triggers_an_immediate_catch_up() {
    let interval = nanos(Duration::from_secs(1));
    let mut cadence = RefreshCadence::new(interval, 5_000);
    cadence.record_refresh_completed(5_000 + 3 * interval);
    assert_eq!(cadence.wait_duration(5_000 + 3 * interval), interval);
    assert_eq!(cadence.wait_duration(5_000 + 5 * interval), 0);
}
