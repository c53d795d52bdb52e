use std::time::Instant;
use vstd::prelude::*;

verus! {

/// A pointer position and when it was sampled.
#[derive(Debug, Clone, Copy)]
pub struct PointerSample {
    pub time: Instant,
    pub x: i32,
    pub y: i32,
}

/// The farthest a press may travel (in pixels) and still be a tap.
pub const TAP_MAX_DISTANCE_PX: i64 = 6;
/// The longest a press may last (in nanoseconds) and still be a tap.
pub const TAP_MAX_DURATION_NANOS: u128 = 250_000_000;

/// A press that moved at most six pixels (Euclidean distance) and lasted at most a
/// quarter second is a tap; anything else releases the mascot as a fling.
pub open spec fn tap_spec(dx: int, dy: int, elapsed_nanos: nat) -> bool {
    dx * dx + dy * dy <= TAP_MAX_DISTANCE_PX * TAP_MAX_DISTANCE_PX && elapsed_nanos <= TAP_MAX_DURATION_NANOS
}

/// Whether a press from `down` to `up`, `elapsed_nanos` long, was a tap.
pub fn is_tap(down_x: i32, down_y: i32, up_x: i32, up_y: i32, elapsed_nanos: u128) -> (tap: bool)
    ensures
        tap == tap_spec(up_x - down_x, up_y - down_y, elapsed_nanos as nat),
{
    let dx = up_x as i64 - down_x as i64;
    let dy = up_y as i64 - down_y as i64;
    let wx = dx as i128;
    let wy = dy as i128;
    assert(0 <= wx * wx <= 0x4_0000_0000_0000_0000) by (nonlinear_arith)
        requires
            -0x2_0000_0000 <= wx <= 0x2_0000_0000,
    ;
    assert(0 <= wy * wy <= 0x4_0000_0000_0000_0000) by (nonlinear_arith)
        requires
            -0x2_0000_0000 <= wy <= 0x2_0000_0000,
    ;
    let squared = wx * wx + wy * wy;
    squared <= (TAP_MAX_DISTANCE_PX * TAP_MAX_DISTANCE_PX) as i128 && elapsed_nanos <= TAP_MAX_DURATION_NANOS
}

} // verus!
