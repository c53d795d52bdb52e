use shimeji::format::animation::Direction;
use shimeji::format::sprites::{oriented_sprite, RgbaFrame};
use shimeji::window::alpha::premultiply;
use shimeji::window::hit_test::is_opaque_at;

fn asymmetric_frame() -> RgbaFrame {
    // 2x1 image: left pixel red, right pixel blue -- flipping must swap them.
    let mut img = RgbaFrame::new(2, 1);
    img.put_pixel(0, 0, [255, 0, 0, 255]);
    img.put_pixel(1, 0, [0, 0, 255, 255]);
    img
}

#[test]
fn left_facing_sprite_is_unchanged() {
    let oriented = oriented_sprite(asymmetric_frame(), Direction::Left);
    assert_eq!(oriented.get_pixel(0, 0), [255, 0, 0, 255]);
    assert_eq!(oriented.get_pixel(1, 0), [0, 0, 255, 255]);
}

#[test]
fn any_facing_sprite_is_unchanged() {
    let oriented = oriented_sprite(asymmetric_frame(), Direction::Any);
    assert_eq!(oriented.get_pixel(0, 0), [255, 0, 0, 255]);
    assert_eq!(oriented.get_pixel(1, 0), [0, 0, 255, 255]);
}

#[test]
fn right_facing_sprite_is_mirrored_horizontally() {
    let oriented = oriented_sprite(asymmetric_frame(), Direction::Right);
    assert_eq!(oriented.get_pixel(0, 0), [0, 0, 255, 255]);
    assert_eq!(oriented.get_pixel(1, 0), [255, 0, 0, 255]);
}

#[test]
fn mirroring_keeps_rows_apart() {
    let mut img = RgbaFrame::new(3, 2);
    img.put_pixel(0, 0, [1, 1, 1, 1]);
    img.put_pixel(2, 1, [2, 2, 2, 2]);
    let oriented = oriented_sprite(img, Direction::Right);
    assert_eq!((oriented.width(), oriented.height()), (3, 2));
    assert_eq!(oriented.get_pixel(2, 0), [1, 1, 1, 1]);
    assert_eq!(oriented.get_pixel(0, 1), [2, 2, 2, 2]);
    assert_eq!(oriented.get_pixel(1, 1), [0, 0, 0, 0]);
}

#[test]
fn fully_opaque_pixel_becomes_bgra_unchanged() {
    let mut img = RgbaFrame::new(1, 1);
    img.put_pixel(0, 0, [10, 20, 30, 255]);
    let out = premultiply(&img);
    assert_eq!(out, vec![30, 20, 10, 255]); // B, G, R, A
}

#[test]
fn half_alpha_pixel_scales_color_channels() {
    let mut img = RgbaFrame::new(1, 1);
    img.put_pixel(0, 0, [200, 100, 40, 128]);
    let out = premultiply(&img);
    // 200*128/255 ≈ 100, 100*128/255 ≈ 50, 40*128/255 ≈ 20
    assert_eq!(out, vec![20, 50, 100, 128]);
}

#[test]
fn fully_transparent_pixel_becomes_all_zero() {
    let mut img = RgbaFrame::new(1, 1);
    img.put_pixel(0, 0, [255, 255, 255, 0]);
    let out = premultiply(&img);
    assert_eq!(out, vec![0, 0, 0, 0]);
}

fn frame_with_one_opaque_pixel() -> RgbaFrame {
    let mut img = RgbaFrame::new(4, 4);
    for y in 0..4 {
        for x in 0..4 {
            img.put_pixel(x, y, [0, 0, 0, 0]);
        }
    }
    img.put_pixel(2, 2, [255, 0, 0, 255]);
    img
}

#[test]
fn opaque_pixel_hits() {
    let img = frame_with_one_opaque_pixel();
    assert!(is_opaque_at(&img, 2, 2));
}

#[test]
fn transparent_pixel_passes_through() {
    let img = frame_with_one_opaque_pixel();
    assert!(!is_opaque_at(&img, 0, 0));
}

#[test]
fn out_of_bounds_passes_through() {
    let img = frame_with_one_opaque_pixel();
    assert!(!is_opaque_at(&img, -1, 0));
    assert!(!is_opaque_at(&img, 100, 0));
}

#[test]
fn alpha_at_the_threshold_passes_through() {
    let mut img = RgbaFrame::new(2, 1);
    img.put_pixel(0, 0, [9, 9, 9, 8]);
    img.put_pixel(1, 0, [9, 9, 9, 9]);
    assert!(!is_opaque_at(&img, 0, 0));
    assert!(is_opaque_at(&img, 1, 0));
}

#[test]
fn raw_buffers_must_hold_four_bytes_per_pixel() {
    assert!(RgbaFrame::from_raw(2, 2, vec![0; 16]).is_some());
    assert!(RgbaFrame::from_raw(2, 2, vec![0; 15]).is_none());
    assert!(RgbaFrame::from_raw(2, 2, vec![0; 17]).is_none());
}
