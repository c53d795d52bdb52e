use shimeji::environment::surface::query_surface;
use shimeji::environment::Rect;
use shimeji::format::animation::Edge;
use shimeji::state_machine::SurfaceKind;


const SCREEN: Rect = Rect { left: 0, top: 0, right: 1920, bottom: 1080 };
const MONITORS: [Rect; 1] = [SCREEN];

#[test]
fn ground_with_no_windows_is_the_screen_floor() {
    let ctx = query_surface(500, 1080 - 64, 64, 64, 0, 0, &SCREEN, &MONITORS, &[]);
    assert_eq!(ctx.kind, SurfaceKind::Ground);
    assert_eq!(ctx.edge_hit, None);
}

#[test]
fn walking_left_off_the_screen_hits_left_edge() {
    let ctx = query_surface(0, 1080 - 64, 64, 64, -2, 0, &SCREEN, &MONITORS, &[]);
    assert_eq!(ctx.edge_hit, Some(Edge::Left));
}

#[test]
fn walking_right_off_the_screen_hits_right_edge() {
    let ctx = query_surface(1920 - 64, 1080 - 64, 64, 64, 2, 0, &SCREEN, &MONITORS, &[]);
    assert_eq!(ctx.edge_hit, Some(Edge::Right));
}

#[test]
fn standing_on_top_of_another_window_uses_that_window_as_ground() {
    let browser = Rect { left: 200, top: 400, right: 900, bottom: 900 };
    let ctx = query_surface(500, 400 - 64, 64, 64, 0, 0, &SCREEN, &MONITORS, &[browser]);
    assert_eq!(ctx.kind, SurfaceKind::Ground);
    assert_eq!(ctx.edge_hit, None);
}

#[test]
fn walking_off_the_left_edge_of_a_hosting_window() {
    let browser = Rect { left: 200, top: 400, right: 900, bottom: 900 };
    let ctx = query_surface(200, 400 - 64, 64, 64, -2, 0, &SCREEN, &MONITORS, &[browser]);
    assert_eq!(ctx.edge_hit, Some(Edge::Left));
}

#[test]
fn a_mascot_mostly_off_a_window_but_still_partially_overlapping_stays_hosted_by_it() {
    // Regression test for a real bug: hosting_floor required the mascot's CENTER point to
    // fall within the window's x-range, so a mascot whose center had already passed the
    // window's right edge -- but whose body still partially overlapped it -- lost the window
    // as its floor and fell back to the (much lower) monitor floor, well before edge_hit's
    // own full-body definition of "walked off" fired. Any overlap must keep it hosted.
    let browser = Rect { left: 200, top: 400, right: 900, bottom: 900 };
    // mascot spans [880, 944) -- center (912) is past the window's right edge (900), but
    // 20px of the mascot's body (880..900) still overlaps it.
    let ctx = query_surface(880, 400 - 64, 64, 64, 0, 0, &SCREEN, &MONITORS, &[browser]);
    assert_eq!(ctx.kind, SurfaceKind::Ground);
    assert_eq!(ctx.floor_y, 400, "must still use the window's floor while any part of the mascot overlaps it");
}

#[test]
fn a_mascot_mostly_off_a_ceiling_window_but_still_partially_overlapping_stays_hosted_by_it() {
    // Ceiling analogue of the floor regression above.
    let shelf = Rect { left: 200, top: 200, right: 900, bottom: 700 };
    // mascot spans [880, 944) -- center (912) is past the window's right edge (900), but
    // 20px of the mascot's body (880..900) still overlaps it.
    let ctx = query_surface(880, 700, 64, 64, 0, 0, &SCREEN, &MONITORS, &[shelf]);
    assert_eq!(ctx.kind, SurfaceKind::Ceiling);
    assert_eq!(ctx.ceiling_y, 700, "must still use the window's ceiling while any part of the mascot overlaps it");
}

#[test]
fn an_airborne_mascot_moving_purely_horizontally_off_the_left_edge_reports_left() {
    // Regression test for a real bug: the "not resting on anything" branch only ever checked
    // dy for TOP/BOTTOM, never dx for LEFT/RIGHT. An airborne animation that moves purely (or
    // diagonally) sideways -- like this schema's jump_right/jump_left, whose only exit is
    // their own LEFT/RIGHT border transition back into climbing -- could never trigger it and
    // would just jump straight off the edge of the screen forever.
    let ctx = query_surface(2, 400, 64, 64, -5, 0, &SCREEN, &MONITORS, &[]);
    assert_eq!(ctx.kind, SurfaceKind::Air);
    assert_eq!(ctx.edge_hit, Some(Edge::Left));
}

#[test]
fn an_airborne_mascot_moving_purely_horizontally_off_the_right_edge_reports_right() {
    let ctx = query_surface(1920 - 64 - 2, 400, 64, 64, 5, 0, &SCREEN, &MONITORS, &[]);
    assert_eq!(ctx.kind, SurfaceKind::Air);
    assert_eq!(ctx.edge_hit, Some(Edge::Right));
}

#[test]
fn falling_in_open_air_is_air_with_no_edge() {
    let ctx = query_surface(500, 300, 64, 64, 0, 15, &SCREEN, &MONITORS, &[]);
    assert_eq!(ctx.kind, SurfaceKind::Air);
    assert_eq!(ctx.edge_hit, None);
}

#[test]
fn falling_past_the_screen_floor_this_tick_reports_bottom_edge() {
    // feet at 1075, falling by 15 would put feet at 1090 — past the 1080 floor.
    let ctx = query_surface(500, 1075 - 64, 64, 64, 0, 15, &SCREEN, &MONITORS, &[]);
    assert_eq!(ctx.edge_hit, Some(Edge::Bottom));
}

#[test]
fn a_window_the_mascot_has_already_fallen_past_does_not_reappear_as_a_floor() {
    // Regression test for a real bug: comparing a candidate window's top against mascot_y
    // (the sprite's top) instead of feet_y (its bottom) let windows the mascot had already
    // fallen past keep registering as the floor, causing edge_hit to flicker on/off as the
    // mascot fell near real desktop windows instead of only landing on ones still ahead.
    let already_passed = Rect { left: 0, top: 300, right: 1920, bottom: 350 };
    // mascot top at 500, feet at 564 — well past the window's top (300) and bottom (350).
    let ctx = query_surface(500, 500, 64, 64, 0, 15, &SCREEN, &MONITORS, &[already_passed]);
    assert_eq!(ctx.edge_hit, None, "a window already fallen past must not be treated as the floor");
}

#[test]
fn falling_mascot_repeatedly_stepped_eventually_lands_instead_of_falling_forever() {
    // Regression test for a real bug: without BOTTOM edge detection, a mascot falling at
    // dy=15/tick never registered as reaching the floor and fell forever past the screen.
    let mut y = 100;
    let mut hit_bottom = false;
    for _ in 0..200 {
        let ctx = query_surface(500, y, 64, 64, 0, 15, &SCREEN, &MONITORS, &[]);
        if ctx.edge_hit == Some(Edge::Bottom) {
            hit_bottom = true;
            break;
        }
        y += 15;
        assert!(y < SCREEN.bottom + 100, "mascot fell past the floor without ever hitting BOTTOM edge");
    }
    assert!(hit_bottom, "mascot never reported reaching the floor while falling");
}

// Regression tests for a real bug: a two-monitor setup with one horizontal (1920x1080) and
// one vertical (1080x1920) monitor side by side used to compute the "floor" from
// combine_rects' virtual-desktop bounding box, whose bottom is the *taller* monitor's
// bottom (1920) everywhere — including over the horizontal monitor, where nothing exists
// below y=1080. A mascot there would fall through its own monitor's real floor into that
// phantom space, or use the wrong landing height entirely.

const HORIZONTAL: Rect = Rect { left: 0, top: 0, right: 1920, bottom: 1080 };
const VERTICAL: Rect = Rect { left: 1920, top: 0, right: 3000, bottom: 1920 };
const MISMATCHED: [Rect; 2] = [HORIZONTAL, VERTICAL];

#[test]
fn falling_over_the_shorter_monitor_lands_on_its_own_floor_not_the_taller_neighbor() {
    // Bounding box bottom would be 1920 (the vertical monitor's); the real floor here,
    // over the horizontal monitor, is 1080.
    let ctx = query_surface(500, 1075 - 64, 64, 64, 0, 15, &HORIZONTAL, &MISMATCHED, &[]);
    assert_eq!(ctx.edge_hit, Some(Edge::Bottom), "must land at the horizontal monitor's own floor (1080), not fall through toward 1920");
}

#[test]
fn a_mascot_resting_on_the_shorter_monitor_is_not_reported_as_still_airborne() {
    let ctx = query_surface(500, 1080 - 64, 64, 64, 0, 0, &HORIZONTAL, &MISMATCHED, &[]);
    assert_eq!(ctx.kind, SurfaceKind::Ground, "feet at the horizontal monitor's own floor (1080) must read as grounded");
}

#[test]
fn walking_from_the_horizontal_monitor_toward_the_taller_vertical_one_hits_an_edge() {
    // Standing at the right edge of the horizontal monitor (floor 1080), about to step onto
    // the vertical monitor's x-range, whose floor (1920) is 840px lower — not a walkable
    // continuation, so this must read as an edge rather than silently teleporting down.
    let ctx = query_surface(1920 - 64, 1080 - 64, 64, 64, 2, 0, &HORIZONTAL, &MISMATCHED, &[]);
    assert_eq!(ctx.edge_hit, Some(Edge::Right), "a floor-height mismatch between neighboring monitors must read as an edge");
}

#[test]
fn walking_between_two_same_height_monitors_stays_seamless() {
    // Two ordinary side-by-side monitors at the same height must NOT trigger a spurious
    // edge at the seam — only an actual height mismatch should.
    let left_monitor = Rect { left: 0, top: 0, right: 1920, bottom: 1080 };
    let right_monitor = Rect { left: 1920, top: 0, right: 3840, bottom: 1080 };
    let monitors = [left_monitor, right_monitor];
    let ctx = query_surface(1920 - 64, 1080 - 64, 64, 64, 2, 0, &left_monitor, &monitors, &[]);
    assert_eq!(ctx.edge_hit, None, "same-height neighboring monitors must stay walkable across the seam");
}

// Regression tests for a real bug: query_surface never resolved a ceiling at all — a mascot
// climbing a wall (dy < 0) had nothing to stop it at the top, so it just drifted straight
// through the top of the screen into empty space above the monitor forever, instead of
// reaching climb_left/climb_right's own TOP border transition into climb_ceiling_*.

#[test]
fn climbing_past_the_screen_ceiling_this_tick_reports_top_edge() {
    // head at y=5, climbing by -8 would put the head at -3 — past the ceiling at 0.
    let ctx = query_surface(500, 5, 64, 64, 0, -8, &SCREEN, &MONITORS, &[]);
    assert_eq!(ctx.edge_hit, Some(Edge::Top));
}

#[test]
fn a_mascot_resting_at_the_ceiling_is_not_reported_as_still_airborne() {
    let ctx = query_surface(500, 0, 64, 64, 0, 0, &SCREEN, &MONITORS, &[]);
    assert_eq!(ctx.kind, SurfaceKind::Ceiling, "head at the screen's own ceiling (0) must read as hanging, not airborne");
}

#[test]
fn climbing_mascot_repeatedly_stepped_eventually_reaches_the_ceiling_instead_of_climbing_forever() {
    let mut y = 500;
    let mut hit_top = false;
    for _ in 0..200 {
        let ctx = query_surface(500, y, 64, 64, 0, -8, &SCREEN, &MONITORS, &[]);
        if ctx.edge_hit == Some(Edge::Top) {
            hit_top = true;
            break;
        }
        y -= 8;
        assert!(y > SCREEN.top - 100, "mascot climbed past the ceiling without ever hitting TOP edge");
    }
    assert!(hit_top, "mascot never reported reaching the ceiling while climbing");
}

#[test]
fn hanging_from_a_window_uses_that_windows_underside_as_ceiling() {
    // A window from y=200 to y=700 sitting above the mascot: its underside (700) is the
    // ceiling, not the screen's own top (0).
    let shelf = Rect { left: 200, top: 200, right: 900, bottom: 700 };
    let ctx = query_surface(500, 700, 64, 64, 0, 0, &SCREEN, &MONITORS, &[shelf]);
    assert_eq!(ctx.kind, SurfaceKind::Ceiling);
    assert_eq!(ctx.ceiling_y, 700);
}

#[test]
fn walking_off_the_left_edge_of_a_hosting_ceiling_window() {
    let shelf = Rect { left: 200, top: 200, right: 900, bottom: 700 };
    let ctx = query_surface(200, 700, 64, 64, -2, 0, &SCREEN, &MONITORS, &[shelf]);
    assert_eq!(ctx.edge_hit, Some(Edge::Left));
}

#[test]
fn a_window_the_mascot_has_already_climbed_past_does_not_reappear_as_a_ceiling() {
    // Mirrors the equivalent floor regression: a window whose bottom is well below where the
    // mascot's head already is must not register as still-ahead ceiling.
    let already_passed = Rect { left: 0, top: 750, right: 1920, bottom: 800 };
    // mascot head at 500 — above (climbed past) the window's bottom (800).
    let ctx = query_surface(500, 500, 64, 64, 0, -8, &SCREEN, &MONITORS, &[already_passed]);
    assert_eq!(ctx.edge_hit, None, "a window already climbed past must not be treated as the ceiling");
}

#[test]
fn climbing_over_the_shorter_monitor_hits_its_own_ceiling_not_the_taller_neighbors() {
    // Reuses the mismatched horizontal/vertical monitor pair from the floor regression
    // tests above, but this time both monitors are top-aligned (top: 0) — so this test
    // instead checks a monitor pair whose TOPS mismatch (deliberately offset), the ceiling
    // analogue of the earlier floor-height mismatch.
    let low_top_monitor = Rect { left: 0, top: 200, right: 1920, bottom: 1080 };
    let high_top_monitor = Rect { left: 1920, top: 0, right: 3000, bottom: 1080 };
    let monitors = [low_top_monitor, high_top_monitor];
    // head at y=205, climbing by -8 would reach 197 — past this monitor's own ceiling (200).
    let ctx = query_surface(500, 205, 64, 64, 0, -8, &low_top_monitor, &monitors, &[]);
    assert_eq!(ctx.edge_hit, Some(Edge::Top), "must hit its own monitor's ceiling (200), not fall through toward the neighbor's (0)");
}

#[test]
fn climbing_toward_a_monitor_with_a_different_ceiling_height_hits_an_edge() {
    let low_top_monitor = Rect { left: 0, top: 200, right: 1920, bottom: 1080 };
    let high_top_monitor = Rect { left: 1920, top: 0, right: 3000, bottom: 1080 };
    let monitors = [low_top_monitor, high_top_monitor];
    // Hanging at the right edge of low_top_monitor's ceiling (200), about to step onto
    // high_top_monitor's x-range, whose ceiling (0) is 200px higher — not a walkable
    // continuation.
    let ctx = query_surface(1920 - 64, 200, 64, 64, 2, 0, &low_top_monitor, &monitors, &[]);
    assert_eq!(ctx.edge_hit, Some(Edge::Right), "a ceiling-height mismatch between neighboring monitors must read as an edge");
}

#[test]
fn hanging_between_two_same_height_ceilings_stays_seamless() {
    let left_monitor = Rect { left: 0, top: 0, right: 1920, bottom: 1080 };
    let right_monitor = Rect { left: 1920, top: 0, right: 3840, bottom: 1080 };
    let monitors = [left_monitor, right_monitor];
    let ctx = query_surface(1920 - 64, 0, 64, 64, 2, 0, &left_monitor, &monitors, &[]);
    assert_eq!(ctx.edge_hit, None, "same-height neighboring ceilings must stay walkable across the seam");
}
