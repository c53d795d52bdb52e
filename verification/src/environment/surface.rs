use super::Rect;
use crate::format::animation::Edge;
use crate::state_machine::{SurfaceContext, SurfaceKind};
use vstd::prelude::*;

verus! {

/// How close (in pixels) feet or head must be to a surface to count as touching it.
pub const GROUND_TOLERANCE: i32 = 2;

/// `m`'s horizontal span contains `x`.
pub open spec fn spans(m: Rect, x: int) -> bool {
    m.left <= x && x < m.right
}

/// The first monitor in `monitors` whose horizontal span contains `x`.
pub open spec fn monitor_at(x: int, monitors: Seq<Rect>) -> Option<Rect>
    decreases monitors.len(),
{
    if monitors.len() == 0 {
        None
    } else if spans(monitors[0], x) {
        Some(monitors[0])
    } else {
        monitor_at(x, monitors.subrange(1, monitors.len() as int))
    }
}

/// The floor (bottom y) of the monitor under `x`, if any monitor covers `x`.
pub open spec fn floor_at_spec(x: int, monitors: Seq<Rect>) -> Option<i32> {
    match monitor_at(x, monitors) {
        Some(m) => Some(m.bottom),
        None => None,
    }
}

/// The ceiling (top y) of the monitor over `x`, if any monitor covers `x`.
pub open spec fn ceiling_at_spec(x: int, monitors: Seq<Rect>) -> Option<i32> {
    match monitor_at(x, monitors) {
        Some(m) => Some(m.top),
        None => None,
    }
}

/// `w` overlaps the horizontal body span `[left, right)` and its top is not already
/// more than the tolerance above the feet: a floor the mascot can still stand on.
pub open spec fn floor_candidate(w: Rect, left: int, right: int, feet: int) -> bool {
    w.left < right && w.right > left && w.top >= feet - GROUND_TOLERANCE
}

/// `w` overlaps the body span and its bottom is not already more than the tolerance
/// below the head: a ceiling the mascot can still hang from.
pub open spec fn ceiling_candidate(w: Rect, left: int, right: int, head: int) -> bool {
    w.left < right && w.right > left && w.bottom <= head + GROUND_TOLERANCE
}

/// The floor candidate with the smallest top; among equal tops, the earliest in `windows`.
pub open spec fn hosting_floor_spec(windows: Seq<Rect>, left: int, right: int, feet: int) -> Option<Rect>
    decreases windows.len(),
{
    if windows.len() == 0 {
        None
    } else {
        let best = hosting_floor_spec(windows.drop_last(), left, right, feet);
        let w = windows.last();
        if floor_candidate(w, left, right, feet) && (best is None || w.top < best->0.top) {
            Some(w)
        } else {
            best
        }
    }
}

/// The ceiling candidate with the largest bottom; among equal bottoms, the latest in `windows`.
pub open spec fn hosting_ceiling_spec(windows: Seq<Rect>, left: int, right: int, head: int) -> Option<Rect>
    decreases windows.len(),
{
    if windows.len() == 0 {
        None
    } else {
        let best = hosting_ceiling_spec(windows.drop_last(), left, right, head);
        let w = windows.last();
        if ceiling_candidate(w, left, right, head) && (best is None || w.bottom >= best->0.bottom) {
            Some(w)
        } else {
            best
        }
    }
}

/// `x` divided by two, rounded toward zero.
pub open spec fn half_toward_zero(x: int) -> int {
    if x >= 0 { x / 2 } else { -((-x) / 2) }
}

/// `a` and `b` are within the ground tolerance of each other.
pub open spec fn within_tolerance(a: int, b: int) -> bool {
    -GROUND_TOLERANCE <= a - b <= GROUND_TOLERANCE
}

/// The surface at `h` (if any) lines up with `level` within tolerance.
pub open spec fn continues_at(h: Option<i32>, level: int) -> bool {
    match h {
        Some(v) => within_tolerance(v as int, level),
        None => false,
    }
}

/// Leaving a hosting window: moving left past its left edge or right past its right edge.
pub open spec fn window_edge(w: Rect, x: int, width: int, dx: int) -> Option<Edge> {
    if dx < 0 && x + dx <= w.left {
        Some(Edge::Left)
    } else if dx > 0 && x + width + dx >= w.right {
        Some(Edge::Right)
    } else {
        None
    }
}

/// Leaving a monitor's own floor or ceiling: only where the next step lands on no
/// surface at the same height (within tolerance) is it an edge.
pub open spec fn seam_edge(level_left: Option<i32>, level_right: Option<i32>, level: int, dx: int) -> Option<Edge> {
    if dx < 0 {
        if continues_at(level_left, level) { None } else { Some(Edge::Left) }
    } else if dx > 0 {
        if continues_at(level_right, level) { None } else { Some(Edge::Right) }
    } else {
        None
    }
}

/// The surface a mascot with top-left corner `(x, y)` and size `width x height` is on,
/// given the movement `(dx, dy)` it is about to make.
pub open spec fn surface_spec(
    x: int,
    y: int,
    width: int,
    height: int,
    dx: int,
    dy: int,
    screen: Rect,
    monitors: Seq<Rect>,
    windows: Seq<Rect>,
) -> SurfaceContext {
    let feet = y + height;
    let head = y;
    let left = x;
    let right = x + width;
    let center = x + half_toward_zero(width);
    let floor_host = hosting_floor_spec(windows, left, right, feet);
    let floor_y: i32 = match floor_host {
        Some(w) => w.top,
        None => match floor_at_spec(center, monitors) {
            Some(b) => b,
            None => screen.bottom,
        },
    };
    let ceiling_host = hosting_ceiling_spec(windows, left, right, head);
    let ceiling_y: i32 = match ceiling_host {
        Some(w) => w.bottom,
        None => match ceiling_at_spec(center, monitors) {
            Some(t) => t,
            None => screen.top,
        },
    };
    let lead_left = x + dx;
    let lead_right = x + width + dx;
    if within_tolerance(floor_y as int, feet) {
        let edge_hit = match floor_host {
            Some(w) => window_edge(w, x, width, dx),
            None => seam_edge(
                floor_at_spec(lead_left, monitors),
                floor_at_spec(lead_right, monitors),
                floor_y as int,
                dx,
            ),
        };
        SurfaceContext { kind: SurfaceKind::Ground, edge_hit, floor_y, ceiling_y }
    } else if within_tolerance(head, ceiling_y as int) {
        let edge_hit = match ceiling_host {
            Some(w) => window_edge(w, x, width, dx),
            None => seam_edge(
                ceiling_at_spec(lead_left, monitors),
                ceiling_at_spec(lead_right, monitors),
                ceiling_y as int,
                dx,
            ),
        };
        SurfaceContext { kind: SurfaceKind::Ceiling, edge_hit, floor_y, ceiling_y }
    } else {
        let edge_hit = if dy > 0 && feet + dy >= floor_y {
            Some(Edge::Bottom)
        } else if dy < 0 && head + dy <= ceiling_y {
            Some(Edge::Top)
        } else if dx < 0 && floor_at_spec(lead_left, monitors) is None {
            Some(Edge::Left)
        } else if dx > 0 && floor_at_spec(lead_right, monitors) is None {
            Some(Edge::Right)
        } else {
            None
        };
        SurfaceContext { kind: SurfaceKind::Air, edge_hit, floor_y, ceiling_y }
    }
}

/// The first monitor whose horizontal span contains `x`.
fn monitor_covering(x: i64, monitors: &[Rect]) -> (found: Option<Rect>)
    ensures
        found == monitor_at(x as int, monitors@),
{
    let mut i: usize = 0;
    assert(monitors@.subrange(0, monitors@.len() as int) =~= monitors@);
    while i < monitors.len()
        invariant
            i <= monitors@.len(),
            monitor_at(x as int, monitors@) == monitor_at(
                x as int,
                monitors@.subrange(i as int, monitors@.len() as int),
            ),
        decreases monitors@.len() - i,
    {
        let m = monitors[i];
        if m.left as i64 <= x && x < m.right as i64 {
            return Some(m);
        }
        proof {
            assert(monitors@.subrange(i as int, monitors@.len() as int).subrange(
                1,
                monitors@.len() - i,
            ) =~= monitors@.subrange(i + 1, monitors@.len() as int));
        }
        i = i + 1;
    }
    None
}

/// The floor height of whichever monitor's horizontal span contains `x`, if any.
fn floor_at(x: i64, monitors: &[Rect]) -> (floor: Option<i32>)
    ensures
        floor == floor_at_spec(x as int, monitors@),
{
    match monitor_covering(x, monitors) {
        Some(m) => Some(m.bottom),
        None => None,
    }
}

/// The ceiling height of whichever monitor's horizontal span contains `x`, if any.
fn ceiling_at(x: i64, monitors: &[Rect]) -> (ceiling: Option<i32>)
    ensures
        ceiling == ceiling_at_spec(x as int, monitors@),
{
    match monitor_covering(x, monitors) {
        Some(m) => Some(m.top),
        None => None,
    }
}

fn hosting_floor(windows: &[Rect], left: i64, right: i64, feet: i64) -> (host: Option<Rect>)
    requires
        -0x1_0000_0000 <= feet <= 0x1_0000_0000,
    ensures
        host == hosting_floor_spec(windows@, left as int, right as int, feet as int),
{
    let threshold = feet - 2;
    let mut best: Option<Rect> = None;
    let mut i: usize = 0;
    while i < windows.len()
        invariant
            i <= windows@.len(),
            threshold == feet - 2,
            best == hosting_floor_spec(windows@.take(i as int), left as int, right as int, feet as int),
        decreases windows@.len() - i,
    {
        let w = windows[i];
        proof {
            assert(windows@.take(i + 1).drop_last() =~= windows@.take(i as int));
        }
        let candidate = (w.left as i64) < right && (w.right as i64) > left && (w.top as i64) >= threshold;
        if candidate {
            let better = match best {
                None => true,
                Some(b) => w.top < b.top,
            };
            if better {
                best = Some(w);
            }
        }
        i = i + 1;
    }
    proof {
        assert(windows@.take(i as int) =~= windows@);
    }
    best
}

fn hosting_ceiling(windows: &[Rect], left: i64, right: i64, head: i64) -> (host: Option<Rect>)
    requires
        -0x1_0000_0000 <= head <= 0x1_0000_0000,
    ensures
        host == hosting_ceiling_spec(windows@, left as int, right as int, head as int),
{
    let threshold = head + 2;
    let mut best: Option<Rect> = None;
    let mut i: usize = 0;
    while i < windows.len()
        invariant
            i <= windows@.len(),
            threshold == head + 2,
            best == hosting_ceiling_spec(windows@.take(i as int), left as int, right as int, head as int),
        decreases windows@.len() - i,
    {
        let w = windows[i];
        proof {
            assert(windows@.take(i + 1).drop_last() =~= windows@.take(i as int));
        }
        let candidate = (w.left as i64) < right && (w.right as i64) > left && (w.bottom as i64) <= threshold;
        if candidate {
            let better = match best {
                None => true,
                Some(b) => w.bottom >= b.bottom,
            };
            if better {
                best = Some(w);
            }
        }
        i = i + 1;
    }
    proof {
        assert(windows@.take(i as int) =~= windows@);
    }
    best
}

fn close_enough(a: i64, b: i64) -> (close: bool)
    requires
        -0x1_0000_0000 <= a <= 0x1_0000_0000,
        -0x1_0000_0000 <= b <= 0x1_0000_0000,
    ensures
        close == within_tolerance(a as int, b as int),
{
    let d = a - b;
    -2 <= d && d <= 2
}

fn continues(h: Option<i32>, level: i64) -> (cont: bool)
    requires
        -0x1_0000_0000 <= level <= 0x1_0000_0000,
    ensures
        cont == continues_at(h, level as int),
{
    match h {
        Some(v) => close_enough(v as i64, level),
        None => false,
    }
}

/// Resolves the floor and ceiling under and over a mascot whose sprite has its top-left
/// corner at `(mascot_x, mascot_y)`, decides whether it stands, hangs or is airborne, and
/// reports the edge that the movement `(dx, dy)` about to be applied crosses, if any.
/// Coordinates are compared as mathematical integers: no sum overflows.
pub fn query_surface(
    mascot_x: i32,
    mascot_y: i32,
    mascot_width: i32,
    mascot_height: i32,
    dx: i32,
    dy: i32,
    screen: &Rect,
    monitors: &[Rect],
    windows: &[Rect],
) -> (ctx: SurfaceContext)
    ensures
        ctx == surface_spec(
            mascot_x as int,
            mascot_y as int,
            mascot_width as int,
            mascot_height as int,
            dx as int,
            dy as int,
            *screen,
            monitors@,
            windows@,
        ),
{
    let x = mascot_x as i64;
    let feet_y = mascot_y as i64 + mascot_height as i64;
    let head_y = mascot_y as i64;
    let mascot_left = x;
    let mascot_right = x + mascot_width as i64;
    let w = mascot_width as i64;
    let half = if w >= 0 { w / 2 } else { -((-w) / 2) };
    let center_x = x + half;

    let hosting_floor = hosting_floor(windows, mascot_left, mascot_right, feet_y);
    let floor_y: i32 = match hosting_floor {
        Some(host) => host.top,
        None => match floor_at(center_x, monitors) {
            Some(b) => b,
            None => screen.bottom,
        },
    };

    let hosting_ceiling = hosting_ceiling(windows, mascot_left, mascot_right, head_y);
    let ceiling_y: i32 = match hosting_ceiling {
        Some(host) => host.bottom,
        None => match ceiling_at(center_x, monitors) {
            Some(t) => t,
            None => screen.top,
        },
    };

    let lead_left = x + dx as i64;
    let lead_right = mascot_right + dx as i64;
    let on_ground = close_enough(floor_y as i64, feet_y);
    let on_ceiling = close_enough(head_y, ceiling_y as i64);

    if on_ground {
        let mut edge_hit = None;
        match hosting_floor {
            Some(host) => {
                if dx < 0 && lead_left <= host.left as i64 {
                    edge_hit = Some(Edge::Left);
                } else if dx > 0 && lead_right >= host.right as i64 {
                    edge_hit = Some(Edge::Right);
                }
            },
            None => {
                if dx < 0 {
                    if !continues(floor_at(lead_left, monitors), floor_y as i64) {
                        edge_hit = Some(Edge::Left);
                    }
                } else if dx > 0 {
                    if !continues(floor_at(lead_right, monitors), floor_y as i64) {
                        edge_hit = Some(Edge::Right);
                    }
                }
            },
        }
        return SurfaceContext { kind: SurfaceKind::Ground, edge_hit, floor_y, ceiling_y };
    }

    if on_ceiling {
        let mut edge_hit = None;
        match hosting_ceiling {
            Some(host) => {
                if dx < 0 && lead_left <= host.left as i64 {
                    edge_hit = Some(Edge::Left);
                } else if dx > 0 && lead_right >= host.right as i64 {
                    edge_hit = Some(Edge::Right);
                }
            },
            None => {
                if dx < 0 {
                    if !continues(ceiling_at(lead_left, monitors), ceiling_y as i64) {
                        edge_hit = Some(Edge::Left);
                    }
                } else if dx > 0 {
                    if !continues(ceiling_at(lead_right, monitors), ceiling_y as i64) {
                        edge_hit = Some(Edge::Right);
                    }
                }
            },
        }
        return SurfaceContext { kind: SurfaceKind::Ceiling, edge_hit, floor_y, ceiling_y };
    }

    if dy > 0 && feet_y + dy as i64 >= floor_y as i64 {
        return SurfaceContext { kind: SurfaceKind::Air, edge_hit: Some(Edge::Bottom), floor_y, ceiling_y };
    }
    if dy < 0 && head_y + dy as i64 <= ceiling_y as i64 {
        return SurfaceContext { kind: SurfaceKind::Air, edge_hit: Some(Edge::Top), floor_y, ceiling_y };
    }
    if dx < 0 {
        if floor_at(lead_left, monitors).is_none() {
            return SurfaceContext { kind: SurfaceKind::Air, edge_hit: Some(Edge::Left), floor_y, ceiling_y };
        }
    } else if dx > 0 {
        if floor_at(lead_right, monitors).is_none() {
            return SurfaceContext { kind: SurfaceKind::Air, edge_hit: Some(Edge::Right), floor_y, ceiling_y };
        }
    }
    SurfaceContext { kind: SurfaceKind::Air, edge_hit: None, floor_y, ceiling_y }
}


/// The floor window is a candidate that no other candidate lies above, and there is no
/// floor window exactly when no window is a candidate: the mascot lands on the topmost
/// window edge its feet have not already passed.
pub proof fn lemma_floor_window_is_topmost_candidate(windows: Seq<Rect>, left: int, right: int, feet: int)
    ensures
        hosting_floor_spec(windows, left, right, feet) is None
            <==> (forall|i: int| 0 <= i < windows.len() ==> !floor_candidate(#[trigger] windows[i], left, right, feet)),
        hosting_floor_spec(windows, left, right, feet) matches Some(w) ==> {
            &&& floor_candidate(w, left, right, feet)
            &&& windows.contains(w)
            &&& forall|i: int| 0 <= i < windows.len() && floor_candidate(#[trigger] windows[i], left, right, feet)
                ==> w.top <= windows[i].top
        },
    decreases windows.len(),
{
    if windows.len() > 0 {
        let init = windows.drop_last();
        lemma_floor_window_is_topmost_candidate(init, left, right, feet);
        assert forall|i: int| 0 <= i < windows.len() - 1 implies #[trigger] windows[i] == init[i] by {}
        if let Some(w) = hosting_floor_spec(init, left, right, feet) {
            assert(windows.contains(w)) by {
                let k = choose|k: int| 0 <= k < init.len() && init[k] == w;
                assert(windows[k] == w);
            }
        }
        assert(windows.contains(windows.last())) by {
            assert(windows[windows.len() - 1] == windows.last());
        }
    }
}

/// The ceiling window is a candidate that no other candidate lies below, and there is none
/// exactly when no window is a candidate: the mascot hangs from the lowest window underside
/// its head has not already passed.
pub proof fn lemma_ceiling_window_is_lowest_candidate(windows: Seq<Rect>, left: int, right: int, head: int)
    ensures
        hosting_ceiling_spec(windows, left, right, head) is None
            <==> (forall|i: int| 0 <= i < windows.len() ==> !ceiling_candidate(#[trigger] windows[i], left, right, head)),
        hosting_ceiling_spec(windows, left, right, head) matches Some(w) ==> {
            &&& ceiling_candidate(w, left, right, head)
            &&& windows.contains(w)
            &&& forall|i: int| 0 <= i < windows.len() && ceiling_candidate(#[trigger] windows[i], left, right, head)
                ==> w.bottom >= windows[i].bottom
        },
    decreases windows.len(),
{
    if windows.len() > 0 {
        let init = windows.drop_last();
        lemma_ceiling_window_is_lowest_candidate(init, left, right, head);
        assert forall|i: int| 0 <= i < windows.len() - 1 implies #[trigger] windows[i] == init[i] by {}
        if let Some(w) = hosting_ceiling_spec(init, left, right, head) {
            assert(windows.contains(w)) by {
                let k = choose|k: int| 0 <= k < init.len() && init[k] == w;
                assert(windows[k] == w);
            }
        }
        assert(windows.contains(windows.last())) by {
            assert(windows[windows.len() - 1] == windows.last());
        }
    }
}

/// The surface kind is decided by contact alone: standing when the feet are within the
/// tolerance of the floor, otherwise hanging when the head is within the tolerance of the
/// ceiling, otherwise airborne; never a wall.
pub proof fn lemma_kind_follows_contact(
    x: int, y: int, width: int, height: int, dx: int, dy: int,
    screen: Rect, monitors: Seq<Rect>, windows: Seq<Rect>,
)
    ensures ({
        let ctx = surface_spec(x, y, width, height, dx, dy, screen, monitors, windows);
        &&& (ctx.kind == SurfaceKind::Ground) == within_tolerance(ctx.floor_y as int, y + height)
        &&& (ctx.kind == SurfaceKind::Ceiling)
            == (!within_tolerance(ctx.floor_y as int, y + height) && within_tolerance(y, ctx.ceiling_y as int))
        &&& ctx.kind != SurfaceKind::Wall
    }),
{
}

/// Edges follow the movement: a left edge only while moving left, a right edge only while
/// moving right, a bottom edge only while falling through the air and a top edge only while
/// rising through the air. A mascot that does not move never reports an edge.
pub proof fn lemma_edges_follow_movement(
    x: int, y: int, width: int, height: int, dx: int, dy: int,
    screen: Rect, monitors: Seq<Rect>, windows: Seq<Rect>,
)
    ensures ({
        let ctx = surface_spec(x, y, width, height, dx, dy, screen, monitors, windows);
        &&& ctx.edge_hit == Some(Edge::Left) ==> dx < 0
        &&& ctx.edge_hit == Some(Edge::Right) ==> dx > 0
        &&& ctx.edge_hit == Some(Edge::Bottom) ==> dy > 0 && ctx.kind == SurfaceKind::Air
        &&& ctx.edge_hit == Some(Edge::Top) ==> dy < 0 && ctx.kind == SurfaceKind::Air
        &&& (dx == 0 && dy == 0) ==> ctx.edge_hit is None
    }),
{
}

/// An airborne mascot whose fall this tick reaches or passes the floor reports the bottom
/// edge, and one whose climb reaches or passes the ceiling (while not also reaching the
/// floor) reports the top edge: it lands or hangs instead of passing through.
pub proof fn lemma_airborne_contact_is_reported(
    x: int, y: int, width: int, height: int, dx: int, dy: int,
    screen: Rect, monitors: Seq<Rect>, windows: Seq<Rect>,
)
    ensures ({
        let ctx = surface_spec(x, y, width, height, dx, dy, screen, monitors, windows);
        &&& (ctx.kind == SurfaceKind::Air && dy > 0 && y + height + dy >= ctx.floor_y)
            ==> ctx.edge_hit == Some(Edge::Bottom)
        &&& (ctx.kind == SurfaceKind::Air && dy < 0 && y + dy <= ctx.ceiling_y)
            ==> ctx.edge_hit == Some(Edge::Top)
    }),
{
}

/// Standing on a monitor's own floor (no window underneath), a step onto ground at the
/// same height (within tolerance) is no edge, and a step onto a different height or off
/// every monitor is one.
pub proof fn lemma_monitor_seam_needs_a_height_change(
    x: int, y: int, width: int, height: int, dx: int, dy: int,
    screen: Rect, monitors: Seq<Rect>, windows: Seq<Rect>,
)
    requires
        hosting_floor_spec(windows, x, x + width, y + height) is None,
        surface_spec(x, y, width, height, dx, dy, screen, monitors, windows).kind == SurfaceKind::Ground,
    ensures ({
        let ctx = surface_spec(x, y, width, height, dx, dy, screen, monitors, windows);
        &&& dx > 0 ==> (ctx.edge_hit is None
            <==> continues_at(floor_at_spec(x + width + dx, monitors), ctx.floor_y as int))
        &&& dx < 0 ==> (ctx.edge_hit is None
            <==> continues_at(floor_at_spec(x + dx, monitors), ctx.floor_y as int))
    }),
{
}

/// Without a floor window, the floor is the bottom of the first monitor covering the
/// mascot's center column, or the screen's bottom where no monitor covers it.
pub proof fn lemma_floor_falls_back_to_monitor_then_screen(
    x: int, y: int, width: int, height: int, dx: int, dy: int,
    screen: Rect, monitors: Seq<Rect>, windows: Seq<Rect>,
)
    requires
        hosting_floor_spec(windows, x, x + width, y + height) is None,
    ensures
        surface_spec(x, y, width, height, dx, dy, screen, monitors, windows).floor_y
            == match monitor_at(x + half_toward_zero(width), monitors) {
                Some(m) => m.bottom,
                None => screen.bottom,
            },
{
}

/// Where a mascot of height `size` at `(x, y)` ends up after moving by `(dx, dy)` on
/// `surface`: landing puts its feet exactly on the floor, reaching the ceiling puts its
/// top exactly on the ceiling, and otherwise it moves by the full step.
pub open spec fn settled_position(x: int, y: int, size: int, dx: int, dy: int, surface: SurfaceContext) -> (int, int) {
    let new_y = match surface.edge_hit {
        Some(Edge::Bottom) => surface.floor_y - size,
        Some(Edge::Top) => surface.ceiling_y as int,
        _ => y + dy,
    };
    (x + dx, new_y)
}

/// Moves a mascot by one tick's step, snapping it onto the floor on the tick it lands and
/// onto the ceiling on the tick it reaches it, so that a step that overshoots or falls
/// short of the surface still leaves the mascot resting exactly on it.
pub fn settle_position(x: i32, y: i32, size: i32, dx: i32, dy: i32, surface: &SurfaceContext) -> (pos: (i32, i32))
    requires
        i32::MIN <= x + dx <= i32::MAX,
        surface.edge_hit == Some(Edge::Bottom) ==> i32::MIN <= surface.floor_y - size <= i32::MAX,
        !(surface.edge_hit == Some(Edge::Bottom) || surface.edge_hit == Some(Edge::Top))
            ==> i32::MIN <= y + dy <= i32::MAX,
    ensures
        (pos.0 as int, pos.1 as int) == settled_position(x as int, y as int, size as int, dx as int, dy as int, *surface),
{
    let new_y = match surface.edge_hit {
        Some(Edge::Bottom) => surface.floor_y - size,
        Some(Edge::Top) => surface.ceiling_y,
        _ => y + dy,
    };
    (x + dx, new_y)
}

} // verus!
