//! Totals since start and counts of transcribed lines over rolling windows.
//!
//! Every time is handed in by the caller: `now` is a reading of a monotonic
//! clock in nanoseconds, `epoch_secs` the wall clock in seconds since the
//! Unix epoch.

use chrono::{TimeZone, Utc};
use std::collections::VecDeque;
use vstd::prelude::*;

verus! {

pub const NANOS_PER_SEC: u64 = 1_000_000_000;

/// The counts of lines transcribed within each window before a snapshot.
#[derive(Debug)]
pub struct LineWindowSnapshot {
    pub last_1h: usize,
    pub last_30m: usize,
    pub last_15m: usize,
    pub last_5m: usize,
    pub last_1m: usize,
    pub last_30s: usize,
}

/// The metrics at one moment.
#[derive(Debug)]
pub struct MetricsSnapshot {
    pub uptime_seconds: u64,
    pub total_transcribed_lines: u64,
    pub total_sessions_started: u64,
    pub total_sessions_completed: u64,
    pub last_transcription_at: Option<String>,
    pub line_windows: LineWindowSnapshot,
}

/// The times of the lines recorded within one horizon, oldest first.
pub struct LineWindow {
    horizon: u64,
    points: VecDeque<u64>,
}

/// The metrics of the running service.
pub struct AppMetrics {
    start_time: u64,
    total_transcribed_lines: u64,
    total_sessions_started: u64,
    total_sessions_completed: u64,
    last_transcription_epoch: u64,
    window_1h: LineWindow,
    window_30m: LineWindow,
    window_15m: LineWindow,
    window_5m: LineWindow,
    window_1m: LineWindow,
    window_30s: LineWindow,
}

/// A window as a mathematical value.
pub struct WindowView {
    pub horizon: u64,
    pub points: Seq<u64>,
}

/// The metrics as a mathematical value.
pub struct MetricsView {
    pub start_time: u64,
    pub total_transcribed_lines: u64,
    pub total_sessions_started: u64,
    pub total_sessions_completed: u64,
    pub last_transcription_epoch: u64,
    pub window_1h: WindowView,
    pub window_30m: WindowView,
    pub window_15m: WindowView,
    pub window_5m: WindowView,
    pub window_1m: WindowView,
    pub window_30s: WindowView,
}

/// The time from `earlier` to `later`, zero when they are out of order.
pub open spec fn elapsed_between(earlier: u64, later: u64) -> nat {
    if later >= earlier {
        (later - earlier) as nat
    } else {
        0
    }
}

/// A point has left the window when it is older than the horizon.
pub open spec fn expired(point: u64, now: u64, horizon: u64) -> bool {
    elapsed_between(point, now) > horizon
}

/// The points without the expired ones at their front. Points behind one
/// that has not expired stay, whatever their age.
pub open spec fn retained(points: Seq<u64>, now: u64, horizon: u64) -> Seq<u64>
    decreases points.len(),
{
    if points.len() > 0 && expired(points[0], now, horizon) {
        retained(points.drop_first(), now, horizon)
    } else {
        points
    }
}

/// A counter one step on; it starts over after the last value.
pub open spec fn bumped(count: u64) -> u64 {
    if count == u64::MAX {
        0
    } else {
        (count + 1) as u64
    }
}

/// A window after a line was recorded at `now`.
pub open spec fn window_recorded(window: WindowView, now: u64) -> WindowView {
    WindowView {
        horizon: window.horizon,
        points: retained(window.points.push(now), now, window.horizon),
    }
}

/// A window after it was counted at `now`.
pub open spec fn window_pruned(window: WindowView, now: u64) -> WindowView {
    WindowView { horizon: window.horizon, points: retained(window.points, now, window.horizon) }
}

/// The metrics after a transcribed line was recorded.
pub open spec fn line_recorded(metrics: MetricsView, now: u64, epoch_secs: u64) -> MetricsView {
    MetricsView {
        start_time: metrics.start_time,
        total_transcribed_lines: bumped(metrics.total_transcribed_lines),
        total_sessions_started: metrics.total_sessions_started,
        total_sessions_completed: metrics.total_sessions_completed,
        last_transcription_epoch: epoch_secs,
        window_1h: window_recorded(metrics.window_1h, now),
        window_30m: window_recorded(metrics.window_30m, now),
        window_15m: window_recorded(metrics.window_15m, now),
        window_5m: window_recorded(metrics.window_5m, now),
        window_1m: window_recorded(metrics.window_1m, now),
        window_30s: window_recorded(metrics.window_30s, now),
    }
}

/// The metrics after their windows were counted at `now`.
pub open spec fn windows_pruned(metrics: MetricsView, now: u64) -> MetricsView {
    MetricsView {
        start_time: metrics.start_time,
        total_transcribed_lines: metrics.total_transcribed_lines,
        total_sessions_started: metrics.total_sessions_started,
        total_sessions_completed: metrics.total_sessions_completed,
        last_transcription_epoch: metrics.last_transcription_epoch,
        window_1h: window_pruned(metrics.window_1h, now),
        window_30m: window_pruned(metrics.window_30m, now),
        window_15m: window_pruned(metrics.window_15m, now),
        window_5m: window_pruned(metrics.window_5m, now),
        window_1m: window_pruned(metrics.window_1m, now),
        window_30s: window_pruned(metrics.window_30s, now),
    }
}

/// The seconds since the Unix epoch as a signed number, the way a
/// two's-complement reinterpretation reads them.
pub open spec fn signed_epoch(epoch_secs: u64) -> int {
    if epoch_secs <= i64::MAX as u64 {
        epoch_secs as int
    } else {
        epoch_secs as int - 0x1_0000_0000_0000_0000
    }
}

/// The RFC 3339 text of the UTC time that is `epoch_secs` seconds from the
/// Unix epoch, where the calendar can express it. The text is chrono's.
pub uninterp spec fn utc_rfc3339(epoch_secs: int) -> Option<Seq<char>>;

/// `Utc.timestamp_opt(epoch_secs, 0)`, taken as a single time and written
/// with `DateTime::to_rfc3339`: nothing when the seconds are out of the
/// calendar's range.
#[verifier::external_body]
fn format_utc_rfc3339(epoch_secs: i64) -> (text: Option<String>)
    ensures
        text.is_some() == utc_rfc3339(epoch_secs as int).is_some(),
        text.is_some() ==> text.unwrap()@ == utc_rfc3339(epoch_secs as int).unwrap(),
{
    Utc.timestamp_opt(epoch_secs, 0).single().map(|time| time.to_rfc3339())
}

/// What a snapshot shows as the time of the last transcription: nothing
/// while the epoch is still zero.
pub open spec fn last_transcription_text(epoch_secs: u64) -> Option<Seq<char>> {
    if epoch_secs == 0 {
        None
    } else {
        utc_rfc3339(signed_epoch(epoch_secs))
    }
}

/// `short` is the end of `long`.
pub open spec fn is_suffix(short: Seq<u64>, long: Seq<u64>) -> bool {
    short.len() <= long.len() && short == long.skip(long.len() - short.len())
}

/// A window with the shorter horizon holds the end of what the window with
/// the longer horizon holds.
pub open spec fn within(short: WindowView, long: WindowView) -> bool {
    short.horizon <= long.horizon && is_suffix(short.points, long.points)
}

/// Each window holds the end of what the next longer window holds.
pub open spec fn nested(metrics: MetricsView) -> bool {
    &&& within(metrics.window_30m, metrics.window_1h)
    &&& within(metrics.window_15m, metrics.window_30m)
    &&& within(metrics.window_5m, metrics.window_15m)
    &&& within(metrics.window_1m, metrics.window_5m)
    &&& within(metrics.window_30s, metrics.window_1m)
}

/// What is retained of a queue is its end.
pub proof fn lemma_retained_is_suffix(points: Seq<u64>, now: u64, horizon: u64)
    ensures
        is_suffix(retained(points, now, horizon), points),
    decreases points.len(),
{
    if points.len() > 0 && expired(points[0], now, horizon) {
        let rest = points.drop_first();
        lemma_retained_is_suffix(rest, now, horizon);
        let kept = retained(rest, now, horizon);
        assert(kept =~= points.skip(points.len() - kept.len()));
    } else {
        assert(points =~= points.skip(0));
    }
}

/// Letting expired lines go keeps a shorter window within a longer one.
pub proof fn lemma_retained_within(short: WindowView, long: WindowView, now: u64)
    requires
        within(short, long),
    ensures
        within(window_pruned(short, now), window_pruned(long, now)),
    decreases long.points.len(),
{
    let big = long.points;
    let small = short.points;
    if big.len() > 0 && expired(big[0], now, long.horizon) {
        let rest = big.drop_first();
        if small.len() == big.len() {
            assert(small =~= big);
            assert(expired(small[0], now, short.horizon));
            assert(small.drop_first() =~= rest.skip(0));
            lemma_retained_within(
                WindowView { horizon: short.horizon, points: small.drop_first() },
                WindowView { horizon: long.horizon, points: rest },
                now,
            );
        } else {
            assert(small =~= rest.skip(rest.len() - small.len()));
            lemma_retained_within(
                short,
                WindowView { horizon: long.horizon, points: rest },
                now,
            );
        }
    } else {
        lemma_retained_is_suffix(small, now, short.horizon);
        let kept = retained(small, now, short.horizon);
        assert(kept =~= big.skip(big.len() - kept.len()));
    }
}

/// Recording a line keeps a shorter window within a longer one.
pub proof fn lemma_recorded_within(short: WindowView, long: WindowView, now: u64)
    requires
        within(short, long),
    ensures
        within(window_recorded(short, now), window_recorded(long, now)),
{
    let small = short.points.push(now);
    let big = long.points.push(now);
    assert(small =~= big.skip(big.len() - small.len()));
    lemma_retained_within(
        WindowView { horizon: short.horizon, points: small },
        WindowView { horizon: long.horizon, points: big },
        now,
    );
}

/// The windows stay nested: they are at the start, and every recorded line
/// and every count keeps them so. The counts of a snapshot are therefore in
/// order: no window counts more lines than a longer one.
pub proof fn law_windows_stay_nested(metrics: MetricsView, start: u64, now: u64, epoch_secs: u64)
    ensures
        nested(fresh_metrics(start)),
        nested(metrics) ==> nested(line_recorded(metrics, now, epoch_secs)),
        nested(metrics) ==> nested(windows_pruned(metrics, now)),
        nested(metrics) ==> ({
            let counted = windows_pruned(metrics, now);
            counted.window_30s.points.len() <= counted.window_1m.points.len()
                <= counted.window_5m.points.len() <= counted.window_15m.points.len()
                <= counted.window_30m.points.len() <= counted.window_1h.points.len()
        }),
{
    let fresh = fresh_metrics(start);
    assert(fresh.window_1h.points =~= fresh.window_1h.points.skip(0));
    if nested(metrics) {
        lemma_recorded_within(metrics.window_30m, metrics.window_1h, now);
        lemma_recorded_within(metrics.window_15m, metrics.window_30m, now);
        lemma_recorded_within(metrics.window_5m, metrics.window_15m, now);
        lemma_recorded_within(metrics.window_1m, metrics.window_5m, now);
        lemma_recorded_within(metrics.window_30s, metrics.window_1m, now);
        lemma_retained_within(metrics.window_30m, metrics.window_1h, now);
        lemma_retained_within(metrics.window_15m, metrics.window_30m, now);
        lemma_retained_within(metrics.window_5m, metrics.window_15m, now);
        lemma_retained_within(metrics.window_1m, metrics.window_5m, now);
        lemma_retained_within(metrics.window_30s, metrics.window_1m, now);
    }
}

impl View for LineWindow {
    type V = WindowView;

    closed spec fn view(&self) -> WindowView {
        WindowView { horizon: self.horizon, points: self.points@ }
    }
}

impl LineWindow {
    /// An empty window that keeps lines for `horizon` nanoseconds.
    pub fn new(horizon: u64) -> (window: Self)
        ensures
            window@ == (WindowView { horizon, points: Seq::empty() }),
    {
        let window = LineWindow { horizon, points: VecDeque::new() };
        assert(window@.points =~= Seq::empty());
        window
    }

    /// Records a line at `now` and lets expired lines go.
    pub fn record(&mut self, now: u64)
        ensures
            final(self)@ == window_recorded(old(self)@, now),
    {
        self.points.push_back(now);
        self.prune(now);
    }

    /// The number of lines within the horizon before `now`. Expired lines
    /// are let go.
    pub fn count(&mut self, now: u64) -> (count: usize)
        ensures
            final(self)@ == window_pruned(old(self)@, now),
            count == final(self)@.points.len(),
    {
        self.prune(now);
        self.points.len()
    }

    /// Lets go of the lines at the front that are older than the horizon.
    pub fn prune(&mut self, now: u64)
        ensures
            final(self)@ == window_pruned(old(self)@, now),
    {
        let ghost horizon = self.horizon;
        let ghost target = retained(self.points@, now, horizon);
        loop
            invariant
                self.horizon == horizon,
                retained(self.points@, now, horizon) == target,
            ensures
                self.horizon == horizon,
                self.points@ == target,
            decreases self.points@.len(),
        {
            if self.points.len() == 0 {
                break;
            }
            let front = self.points[0];
            let age = if now >= front {
                now - front
            } else {
                0
            };
            if age > self.horizon {
                let ghost before = self.points@;
                let _ = self.points.pop_front();
                assert(self.points@ =~= before.drop_first());
            } else {
                break;
            }
        }
    }
}

impl View for AppMetrics {
    type V = MetricsView;

    closed spec fn view(&self) -> MetricsView {
        MetricsView {
            start_time: self.start_time,
            total_transcribed_lines: self.total_transcribed_lines,
            total_sessions_started: self.total_sessions_started,
            total_sessions_completed: self.total_sessions_completed,
            last_transcription_epoch: self.last_transcription_epoch,
            window_1h: self.window_1h@,
            window_30m: self.window_30m@,
            window_15m: self.window_15m@,
            window_5m: self.window_5m@,
            window_1m: self.window_1m@,
            window_30s: self.window_30s@,
        }
    }
}

/// A window of `seconds` that holds nothing.
pub open spec fn empty_window(seconds: u64) -> WindowView {
    WindowView { horizon: (seconds * NANOS_PER_SEC) as u64, points: Seq::empty() }
}

/// Metrics that have counted nothing since `now`.
pub open spec fn fresh_metrics(now: u64) -> MetricsView {
    MetricsView {
        start_time: now,
        total_transcribed_lines: 0,
        total_sessions_started: 0,
        total_sessions_completed: 0,
        last_transcription_epoch: 0,
        window_1h: empty_window(3600),
        window_30m: empty_window(1800),
        window_15m: empty_window(900),
        window_5m: empty_window(300),
        window_1m: empty_window(60),
        window_30s: empty_window(30),
    }
}

impl AppMetrics {
    /// Metrics for a service that started at `now`.
    pub fn new(now: u64) -> (metrics: Self)
        ensures
            metrics@ == fresh_metrics(now),
    {
        AppMetrics {
            start_time: now,
            total_transcribed_lines: 0,
            total_sessions_started: 0,
            total_sessions_completed: 0,
            last_transcription_epoch: 0,
            window_1h: LineWindow::new(60 * 60 * NANOS_PER_SEC),
            window_30m: LineWindow::new(30 * 60 * NANOS_PER_SEC),
            window_15m: LineWindow::new(15 * 60 * NANOS_PER_SEC),
            window_5m: LineWindow::new(5 * 60 * NANOS_PER_SEC),
            window_1m: LineWindow::new(60 * NANOS_PER_SEC),
            window_30s: LineWindow::new(30 * NANOS_PER_SEC),
        }
    }

    /// Counts one transcribed line: the total goes up, every window records
    /// the line, and the wall-clock time becomes the time of the last
    /// transcription.
    pub fn record_transcription_line(&mut self, now: u64, epoch_secs: u64)
        ensures
            final(self)@ == line_recorded(old(self)@, now, epoch_secs),
    {
        self.total_transcribed_lines = self.total_transcribed_lines.wrapping_add(1);
        self.window_1h.record(now);
        self.window_30m.record(now);
        self.window_15m.record(now);
        self.window_5m.record(now);
        self.window_1m.record(now);
        self.window_30s.record(now);
        self.last_transcription_epoch = epoch_secs;
    }

    /// Counts one session that started.
    pub fn record_session_started(&mut self)
        ensures
            final(self)@ == (MetricsView {
                total_sessions_started: bumped(old(self)@.total_sessions_started),
                ..old(self)@
            }),
    {
        self.total_sessions_started = self.total_sessions_started.wrapping_add(1);
    }

    /// Counts one session that completed.
    pub fn record_session_completed(&mut self)
        ensures
            final(self)@ == (MetricsView {
                total_sessions_completed: bumped(old(self)@.total_sessions_completed),
                ..old(self)@
            }),
    {
        self.total_sessions_completed = self.total_sessions_completed.wrapping_add(1);
    }

    /// The metrics at `now`: whole seconds of uptime, the totals, the time
    /// of the last transcription, and the lines within each window. Counting
    /// lets the windows go of their expired lines.
    pub fn snapshot(&mut self, now: u64) -> (snapshot: MetricsSnapshot)
        ensures
            final(self)@ == windows_pruned(old(self)@, now),
            snapshot.uptime_seconds == elapsed_between(old(self)@.start_time, now) / (
            NANOS_PER_SEC as nat),
            snapshot.total_transcribed_lines == old(self)@.total_transcribed_lines,
            snapshot.total_sessions_started == old(self)@.total_sessions_started,
            snapshot.total_sessions_completed == old(self)@.total_sessions_completed,
            snapshot.last_transcription_at.is_some() == last_transcription_text(
                old(self)@.last_transcription_epoch,
            ).is_some(),
            snapshot.last_transcription_at.is_some() ==> snapshot.last_transcription_at.unwrap()@
                == last_transcription_text(old(self)@.last_transcription_epoch).unwrap(),
            snapshot.line_windows.last_1h == final(self)@.window_1h.points.len(),
            snapshot.line_windows.last_30m == final(self)@.window_30m.points.len(),
            snapshot.line_windows.last_15m == final(self)@.window_15m.points.len(),
            snapshot.line_windows.last_5m == final(self)@.window_5m.points.len(),
            snapshot.line_windows.last_1m == final(self)@.window_1m.points.len(),
            snapshot.line_windows.last_30s == final(self)@.window_30s.points.len(),
    {
        let elapsed = if now >= self.start_time {
            now - self.start_time
        } else {
            0
        };
        let last_transcription_at = self.last_transcription_iso8601();
        let line_windows = self.line_window_snapshot(now);
        MetricsSnapshot {
            uptime_seconds: elapsed / NANOS_PER_SEC,
            total_transcribed_lines: self.total_transcribed_lines,
            total_sessions_started: self.total_sessions_started,
            total_sessions_completed: self.total_sessions_completed,
            last_transcription_at,
            line_windows,
        }
    }

    /// The lines within each window before `now`.
    pub fn line_window_snapshot(&mut self, now: u64) -> (counts: LineWindowSnapshot)
        ensures
            final(self)@ == windows_pruned(old(self)@, now),
            counts.last_1h == final(self)@.window_1h.points.len(),
            counts.last_30m == final(self)@.window_30m.points.len(),
            counts.last_15m == final(self)@.window_15m.points.len(),
            counts.last_5m == final(self)@.window_5m.points.len(),
            counts.last_1m == final(self)@.window_1m.points.len(),
            counts.last_30s == final(self)@.window_30s.points.len(),
    {
        LineWindowSnapshot {
            last_1h: self.window_1h.count(now),
            last_30m: self.window_30m.count(now),
            last_15m: self.window_15m.count(now),
            last_5m: self.window_5m.count(now),
            last_1m: self.window_1m.count(now),
            last_30s: self.window_30s.count(now),
        }
    }

    /// The time of the last transcription as RFC 3339 text in UTC; nothing
    /// before the first line.
    pub fn last_transcription_iso8601(&self) -> (text: Option<String>)
        ensures
            text.is_some() == last_transcription_text(self@.last_transcription_epoch).is_some(),
            text.is_some() ==> text.unwrap()@ == last_transcription_text(
                self@.last_transcription_epoch,
            ).unwrap(),
    {
        let epoch = self.last_transcription_epoch;
        if epoch == 0 {
            return None;
        }
        let signed: i64 = if epoch <= 0x7fff_ffff_ffff_ffff {
            epoch as i64
        } else {
            (epoch - 0x8000_0000_0000_0000) as i64 + i64::MIN
        };
        format_utc_rfc3339(signed)
    }
}

} // verus!
