use std::time::{Duration, Instant};
use vstd::prelude::*;

verus! {

/// `std::time::Instant`, carried through as an opaque value.
#[verifier::external_type_specification]
#[verifier::external_body]
pub struct ExInstant(Instant);

/// An axis-aligned screen rectangle: `left <= x < right`, `top <= y < bottom`.
#[derive(Debug, Clone, Copy, PartialEq, Eq, Structural)]
pub struct Rect {
    pub left: i32,
    pub top: i32,
    pub right: i32,
    pub bottom: i32,
}

/// Where the current set of monitor work areas comes from.
pub trait MonitorSource {
    fn monitors(&self) -> Vec<Rect>;
}

/// Where the current set of other top-level windows comes from.
pub trait WindowSource {
    fn windows(&self) -> Vec<Rect>;
}

/// The bounding box of `rects`, folded left to right from the empty box
/// `{ i32::MAX, i32::MAX, i32::MIN, i32::MIN }`.
pub open spec fn combine_rects_spec(rects: Seq<Rect>) -> Rect
    decreases rects.len(),
{
    if rects.len() == 0 {
        Rect { left: i32::MAX, top: i32::MAX, right: i32::MIN, bottom: i32::MIN }
    } else {
        let acc = combine_rects_spec(rects.drop_last());
        let r = rects.last();
        Rect {
            left: if r.left < acc.left { r.left } else { acc.left },
            top: if r.top < acc.top { r.top } else { acc.top },
            right: if r.right > acc.right { r.right } else { acc.right },
            bottom: if r.bottom > acc.bottom { r.bottom } else { acc.bottom },
        }
    }
}

/// Caches the virtual-screen rectangle and the window list, re-querying its sources
/// only once the refresh interval has passed since the last query. Times are kept in
/// whole nanoseconds, which order exactly as the durations do.
pub struct EnvironmentTracker<M: MonitorSource, W: WindowSource> {
    pub monitor_source: M,
    pub window_source: W,
    refresh_interval_nanos: u128,
    last_refresh: Option<Instant>,
    screen_rect: Rect,
    monitor_rects: Vec<Rect>,
    window_rects: Vec<Rect>,
}

impl<M: MonitorSource, W: WindowSource> EnvironmentTracker<M, W> {
    /// The monitor source this tracker queries.
    pub closed spec fn monitor_source_spec(&self) -> M {
        self.monitor_source
    }

    /// The window source this tracker queries.
    pub closed spec fn window_source_spec(&self) -> W {
        self.window_source
    }

    /// The cached virtual-screen rectangle.
    pub closed spec fn screen(&self) -> Rect {
        self.screen_rect
    }

    /// The cached monitor rectangles, as last returned by the monitor source.
    pub closed spec fn monitor_list(&self) -> Seq<Rect> {
        self.monitor_rects@
    }

    /// The cached window rectangles, as last returned by the window source.
    pub closed spec fn window_list(&self) -> Seq<Rect> {
        self.window_rects@
    }

    /// When the sources were last queried, if ever.
    pub closed spec fn last_refreshed(&self) -> Option<Instant> {
        self.last_refresh
    }

    /// How long a cached snapshot stays fresh, in nanoseconds.
    pub closed spec fn interval(&self) -> u128 {
        self.refresh_interval_nanos
    }

    /// Once the sources have been queried, the screen is the bounding box of the monitors.
    pub closed spec fn wf(&self) -> bool {
        self.last_refresh is Some ==> self.screen_rect == combine_rects_spec(self.monitor_rects@)
    }

    /// A tracker that has not queried its sources yet, keeping snapshots fresh for
    /// `refresh_interval` (read as nanoseconds with `Duration::as_nanos`).
    pub fn new(monitor_source: M, window_source: W, refresh_interval: Duration) -> (tracker: Self)
        ensures
            tracker.wf(),
            tracker.monitor_source_spec() == monitor_source,
            tracker.window_source_spec() == window_source,
            tracker.last_refreshed() is None,
            tracker.screen() == (Rect { left: 0, top: 0, right: 0, bottom: 0 }),
            tracker.monitor_list() == Seq::<Rect>::empty(),
            tracker.window_list() == Seq::<Rect>::empty(),
    {
        let refresh_interval_nanos = duration_nanos(refresh_interval);
        EnvironmentTracker {
            monitor_source,
            window_source,
            refresh_interval_nanos,
            last_refresh: None,
            screen_rect: Rect { left: 0, top: 0, right: 0, bottom: 0 },
            monitor_rects: Vec::new(),
            window_rects: Vec::new(),
        }
    }

    /// Returns the virtual-screen rectangle and the window rectangles, querying both
    /// sources first when no query has happened yet or the refresh interval has elapsed
    /// since the last one (read from the clock; see `refresh_if_due` for the decision).
    pub fn poll(&mut self, now: Instant) -> (snapshot: (&Rect, &[Rect]))
        requires
            old(self).wf(),
        ensures
            final(self).wf(),
            final(self).monitor_source_spec() == old(self).monitor_source_spec(),
            final(self).window_source_spec() == old(self).window_source_spec(),
            final(self).interval() == old(self).interval(),
            *snapshot.0 == final(self).screen(),
            snapshot.1@ == final(self).window_list(),
            // The first poll always queries the sources.
            old(self).last_refreshed() is None ==> final(self).last_refreshed() == Some(now),
            // Either the sources were queried now, or nothing changed.
            final(self).last_refreshed() == Some(now) || (
                final(self).last_refreshed() == old(self).last_refreshed()
                && final(self).screen() == old(self).screen()
                && final(self).monitor_list() == old(self).monitor_list()
                && final(self).window_list() == old(self).window_list()),
            final(self).last_refreshed() == Some(now)
                ==> final(self).screen() == combine_rects_spec(final(self).monitor_list()),
    {
        let elapsed = match self.last_refresh {
            None => 0,
            Some(last) => duration_nanos(elapsed_between(now, last)),
        };
        self.refresh_if_due(now, elapsed)
    }

    /// The refresh decision, given the nanoseconds `elapsed` since the last query: the
    /// sources are queried, and the snapshot replaced, exactly when no query has happened
    /// yet or `elapsed` reaches the refresh interval; otherwise nothing changes.
    pub fn refresh_if_due(&mut self, now: Instant, elapsed: u128) -> (snapshot: (&Rect, &[Rect]))
        requires
            old(self).wf(),
        ensures
            final(self).wf(),
            final(self).monitor_source_spec() == old(self).monitor_source_spec(),
            final(self).window_source_spec() == old(self).window_source_spec(),
            final(self).interval() == old(self).interval(),
            *snapshot.0 == final(self).screen(),
            snapshot.1@ == final(self).window_list(),
            (old(self).last_refreshed() is None || refresh_due_spec(elapsed, old(self).interval())) ==> {
                &&& final(self).last_refreshed() == Some(now)
                &&& final(self).screen() == combine_rects_spec(final(self).monitor_list())
            },
            !(old(self).last_refreshed() is None || refresh_due_spec(elapsed, old(self).interval())) ==> {
                &&& final(self).last_refreshed() == old(self).last_refreshed()
                &&& final(self).screen() == old(self).screen()
                &&& final(self).monitor_list() == old(self).monitor_list()
                &&& final(self).window_list() == old(self).window_list()
            },
    {
        let due = match self.last_refresh {
            None => true,
            Some(_) => refresh_due(elapsed, self.refresh_interval_nanos),
        };
        if due {
            let monitors = self.monitor_source.monitors();
            self.screen_rect = combine_rects(&monitors);
            self.monitor_rects = monitors;
            self.window_rects = self.window_source.windows();
            self.last_refresh = Some(now);
        }
        (&self.screen_rect, self.window_rects.as_slice())
    }

    /// The monitor rectangles of the last query.
    pub fn monitor_rects(&self) -> (rects: &[Rect])
        ensures
            rects@ == self.monitor_list(),
    {
        self.monitor_rects.as_slice()
    }
}

/// Calls `Instant::duration_since`: the time from `earlier` to `later`. The clock is
/// the machine's, so nothing is stated of the result.
#[verifier::external_body]
fn elapsed_between(later: Instant, earlier: Instant) -> Duration {
    later.duration_since(earlier)
}

/// Calls `Duration::as_nanos`: the whole nanoseconds of `d`. `Duration` is opaque here,
/// so nothing is stated of the result.
#[verifier::external_body]
fn duration_nanos(d: Duration) -> u128 {
    d.as_nanos()
}

/// A snapshot `elapsed` nanoseconds old is stale once it reaches the interval.
pub open spec fn refresh_due_spec(elapsed: u128, interval: u128) -> bool {
    elapsed >= interval
}

/// Whether a snapshot `elapsed` nanoseconds old has reached the refresh interval.
pub fn refresh_due(elapsed: u128, interval: u128) -> (due: bool)
    ensures
        due == refresh_due_spec(elapsed, interval),
{
    elapsed >= interval
}

/// The bounding box of all `rects` (the empty box for an empty slice).
pub fn combine_rects(rects: &[Rect]) -> (combined: Rect)
    ensures
        combined == combine_rects_spec(rects@),
{
    let mut acc = Rect { left: i32::MAX, top: i32::MAX, right: i32::MIN, bottom: i32::MIN };
    let mut i: usize = 0;
    while i < rects.len()
        invariant
            i <= rects@.len(),
            acc == combine_rects_spec(rects@.take(i as int)),
        decreases rects@.len() - i,
    {
        let r = rects[i];
        acc = Rect {
            left: if r.left < acc.left { r.left } else { acc.left },
            top: if r.top < acc.top { r.top } else { acc.top },
            right: if r.right > acc.right { r.right } else { acc.right },
            bottom: if r.bottom > acc.bottom { r.bottom } else { acc.bottom },
        };
        proof {
            assert(rects@.take(i + 1).drop_last() =~= rects@.take(i as int));
        }
        i = i + 1;
    }
    proof {
        assert(rects@.take(i as int) =~= rects@);
    }
    acc
}

/// The combined rectangle encloses every rectangle it was built from.
pub proof fn lemma_combined_rect_encloses_all(rects: Seq<Rect>, i: int)
    requires
        0 <= i < rects.len(),
    ensures
        combine_rects_spec(rects).left <= rects[i].left,
        combine_rects_spec(rects).top <= rects[i].top,
        combine_rects_spec(rects).right >= rects[i].right,
        combine_rects_spec(rects).bottom >= rects[i].bottom,
    decreases rects.len(),
{
    if i < rects.len() - 1 {
        lemma_combined_rect_encloses_all(rects.drop_last(), i);
    }
}

} // verus!
