use crate::format::sprites::RgbaFrame;
use vstd::prelude::*;

verus! {

/// Alpha at or below this lets clicks through to what is under the mascot.
pub const OPAQUE_THRESHOLD: u8 = 8;

/// Whether the mascot's sprite catches a click at `(local_x, local_y)`: the point is
/// inside the frame and the pixel there has alpha above the threshold.
pub fn is_opaque_at(frame: &RgbaFrame, local_x: i32, local_y: i32) -> (hit: bool)
    requires
        frame.wf(),
    ensures
        hit == (0 <= local_x < frame.width_spec() && 0 <= local_y < frame.height_spec()
            && frame.pixel(local_x as int, local_y as int)[3] > OPAQUE_THRESHOLD),
{
    if local_x < 0 || local_y < 0 || local_x as u32 >= frame.width() || local_y as u32 >= frame.height() {
        return false;
    }
    frame.get_pixel(local_x as u32, local_y as u32)[3] > OPAQUE_THRESHOLD
}

} // verus!
