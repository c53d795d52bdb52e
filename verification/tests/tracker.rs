use shimeji::environment::{EnvironmentTracker, MonitorSource, Rect, WindowSource};

use std::cell::Cell;
use shimeji::environment::tracker::refresh_due;
use std::time::{Duration, Instant};

struct CountingSource {
    rects: Vec<Rect>,
    calls: Cell<u32>,
}
impl MonitorSource for CountingSource {
    fn monitors(&self) -> Vec<Rect> {
        self.calls.set(self.calls.get() + 1);
        self.rects.clone()
    }
}
impl WindowSource for CountingSource {
    fn windows(&self) -> Vec<Rect> {
        self.calls.set(self.calls.get() + 1);
        self.rects.clone()
    }
}

#[test]
fn combines_monitor_rects_into_a_virtual_screen_rect() {
    let monitors = CountingSource {
        rects: vec![
            Rect { left: 0, top: 0, right: 1920, bottom: 1080 },
            Rect { left: 1920, top: 0, right: 3840, bottom: 1080 },
        ],
        calls: Cell::new(0),
    };
    let windows = CountingSource { rects: vec![], calls: Cell::new(0) };
    let mut tracker = EnvironmentTracker::new(monitors, windows, Duration::from_millis(150));

    let (screen, _) = tracker.poll(Instant::now());
    assert_eq!(*screen, Rect { left: 0, top: 0, right: 3840, bottom: 1080 });
}

#[test]
fn does_not_requery_before_the_refresh_interval_elapses() {
    let monitors = CountingSource { rects: vec![Rect { left: 0, top: 0, right: 100, bottom: 100 }], calls: Cell::new(0) };
    let windows = CountingSource { rects: vec![], calls: Cell::new(0) };
    let mut tracker = EnvironmentTracker::new(monitors, windows, Duration::from_millis(150));

    let t0 = Instant::now();
    tracker.poll(t0);
    tracker.poll(t0 + Duration::from_millis(50));
    assert_eq!(tracker.monitor_source.calls.get(), 1);

    tracker.poll(t0 + Duration::from_millis(200));
    assert_eq!(tracker.monitor_source.calls.get(), 2);
}

#[test]
fn refreshes_exactly_when_the_interval_is_reached() {
    let monitors = CountingSource { rects: vec![Rect { left: 0, top: 0, right: 100, bottom: 100 }], calls: Cell::new(0) };
    let windows = CountingSource { rects: vec![], calls: Cell::new(0) };
    let mut tracker = EnvironmentTracker::new(monitors, windows, Duration::from_millis(150));
    let t0 = Instant::now();
    tracker.refresh_if_due(t0, 0);
    tracker.refresh_if_due(t0, 149_999_999);
    assert_eq!(tracker.monitor_source.calls.get(), 1);
    tracker.refresh_if_due(t0, 150_000_000);
    assert_eq!(tracker.monitor_source.calls.get(), 2);
    assert!(refresh_due(150, 150) && !refresh_due(149, 150));
}
