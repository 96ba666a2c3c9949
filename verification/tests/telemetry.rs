use caption_engine::telemetry::metrics::{AppMetrics, LineWindow, NANOS_PER_SEC};
use caption_engine::telemetry::InviteTracker;

#[test]
fn fresh_metrics_count_nothing() {
    let mut metrics = AppMetrics::new(5 * NANOS_PER_SEC);
    let snapshot = metrics.snapshot(5 * NANOS_PER_SEC + NANOS_PER_SEC / 2);
    assert_eq!(snapshot.uptime_seconds, 0);
    assert_eq!(snapshot.total_transcribed_lines, 0);
    assert_eq!(snapshot.total_sessions_started, 0);
    assert_eq!(snapshot.total_sessions_completed, 0);
    assert_eq!(snapshot.last_transcription_at, None);
    assert_eq!(snapshot.line_windows.last_1h, 0);
    assert_eq!(snapshot.line_windows.last_30s, 0);
}

#[test]
fn lines_leave_the_windows_as_they_age() {
    let mut metrics = AppMetrics::new(0);
    metrics.record_transcription_line(0, 1_431_648_000);
    metrics.record_transcription_line(40 * NANOS_PER_SEC, 1_431_648_040);
    metrics.record_transcription_line(50 * NANOS_PER_SEC, 1_431_648_050);
    let snapshot = metrics.snapshot(70 * NANOS_PER_SEC);
    assert_eq!(snapshot.uptime_seconds, 70);
    assert_eq!(snapshot.total_transcribed_lines, 3);
    assert_eq!(snapshot.line_windows.last_1h, 3);
    assert_eq!(snapshot.line_windows.last_30m, 3);
    assert_eq!(snapshot.line_windows.last_15m, 3);
    assert_eq!(snapshot.line_windows.last_5m, 3);
    assert_eq!(snapshot.line_windows.last_1m, 2);
    assert_eq!(snapshot.line_windows.last_30s, 2);
    assert_eq!(
        snapshot.last_transcription_at,
        Some("2015-05-15T00:00:50+00:00".to_string())
    );
    let later = metrics.snapshot(3700 * NANOS_PER_SEC);
    assert_eq!(later.line_windows.last_1h, 0);
    assert_eq!(later.total_transcribed_lines, 3);
}

#[test]
fn a_line_exactly_as_old_as_the_horizon_stays() {
    let mut window = LineWindow::new(30 * NANOS_PER_SEC);
    window.record(10);
    assert_eq!(window.count(30 * NANOS_PER_SEC + 10), 1);
    assert_eq!(window.count(30 * NANOS_PER_SEC + 11), 0);
}

#[test]
fn a_clock_reading_before_the_line_counts_as_no_age() {
    let mut window = LineWindow::new(5);
    window.record(100);
    assert_eq!(window.count(0), 1);
}

#[test]
fn only_the_expired_front_is_dropped() {
    let mut window = LineWindow::new(10);
    window.record(100);
    window.record(50);
    // The front (100) is young, so the old point behind it stays.
    assert_eq!(window.count(105), 2);
    assert_eq!(window.count(111), 0);
}

#[test]
fn sessions_are_counted() {
    let mut metrics = AppMetrics::new(0);
    metrics.record_session_started();
    metrics.record_session_started();
    metrics.record_session_completed();
    let snapshot = metrics.snapshot(0);
    assert_eq!(snapshot.total_sessions_started, 2);
    assert_eq!(snapshot.total_sessions_completed, 1);
    assert_eq!(snapshot.total_transcribed_lines, 0);
}

#[test]
fn last_transcription_out_of_the_calendar_is_absent() {
    let mut metrics = AppMetrics::new(0);
    metrics.record_transcription_line(0, u64::MAX / 2);
    assert_eq!(metrics.last_transcription_iso8601(), None);
    metrics.record_transcription_line(0, 1);
    assert_eq!(
        metrics.last_transcription_iso8601(),
        Some("1970-01-01T00:00:01+00:00".to_string())
    );
    // Read as a signed number, the largest value is one second before the epoch.
    metrics.record_transcription_line(0, u64::MAX);
    assert_eq!(
        metrics.last_transcription_iso8601(),
        Some("1969-12-31T23:59:59+00:00".to_string())
    );
}

#[test]
fn uptime_is_zero_when_the_clock_reads_before_the_start() {
    let mut metrics = AppMetrics::new(10 * NANOS_PER_SEC);
    assert_eq!(metrics.snapshot(0).uptime_seconds, 0);
}

#[test]
fn invite_link_is_kept() {
    let mut tracker = InviteTracker::new();
    assert_eq!(tracker.get(), None);
    tracker.set("https://example.invalid/a".to_string());
    assert_eq!(tracker.get(), Some("https://example.invalid/a".to_string()));
    tracker.set("https://example.invalid/b".to_string());
    assert_eq!(tracker.get(), Some("https://example.invalid/b".to_string()));
    assert_eq!(InviteTracker::default().get(), None);
}

#[test]
fn no_window_counts_more_than_a_longer_one() {
    let mut metrics = AppMetrics::new(0);
    for at in [0u64, 10, 25, 50, 58, 59, 200, 890, 1790, 3599] {
        metrics.record_transcription_line(at * NANOS_PER_SEC, 1);
    }
    for at in [3599u64, 3600, 3650, 4000, 5400, 7300] {
        let counts = metrics.snapshot(at * NANOS_PER_SEC).line_windows;
        assert!(counts.last_30s <= counts.last_1m);
        assert!(counts.last_1m <= counts.last_5m);
        assert!(counts.last_5m <= counts.last_15m);
        assert!(counts.last_15m <= counts.last_30m);
        assert!(counts.last_30m <= counts.last_1h);
    }
    let counts = metrics.snapshot(3599 * NANOS_PER_SEC).line_windows;
    assert_eq!(counts.last_1h, 0);
}
