use goblin_maker::camera::{Camera, HALF_SCREEN_H_SUB, HALF_SCREEN_W_SUB, MIN_ZOOM_FX, ZOOM_ONE_FX};

/// The screen-to-world anchor mapping, as the editor computes it.
fn anchor_world(cam_offset: i64, zoom: i64, screen: i64, half_screen: i64) -> i64 {
    // all quantities nonnegative here, so plain division is the floor
    screen * ZOOM_ONE_FX / zoom + cam_offset - half_screen
}

#[test]
fn zoom_keeps_the_world_point_under_the_cursor() {
    let mut cam = Camera { x: 1000, y: 2000, zoom: ZOOM_ONE_FX };
    let (ox, oy) = (300 * 256, 140 * 256);
    let wx = anchor_world(cam.x, cam.zoom, ox, HALF_SCREEN_W_SUB);
    let wy = anchor_world(cam.y, cam.zoom, oy, HALF_SCREEN_H_SUB);
    cam.zoom_at(ox, oy, true);
    assert_eq!(cam.zoom, ZOOM_ONE_FX * 11 / 10);
    assert_eq!(anchor_world(cam.x, cam.zoom, ox, HALF_SCREEN_W_SUB), wx);
    assert_eq!(anchor_world(cam.y, cam.zoom, oy, HALF_SCREEN_H_SUB), wy);
    // and again zooming out
    let wx2 = anchor_world(cam.x, cam.zoom, ox, HALF_SCREEN_W_SUB);
    cam.zoom_at(ox, oy, false);
    assert_eq!(anchor_world(cam.x, cam.zoom, ox, HALF_SCREEN_W_SUB), wx2);
}

#[test]
fn zoom_never_falls_below_the_floor() {
    let mut cam = Camera { x: 0, y: 0, zoom: MIN_ZOOM_FX };
    cam.zoom_at(0, 0, false);
    assert_eq!(cam.zoom, MIN_ZOOM_FX);
}

#[test]
fn pan_scales_inversely_with_zoom() {
    let mut cam = Camera { x: 100, y: 200, zoom: 2 * ZOOM_ONE_FX };
    cam.pan(512, -1024);
    // delta * one / zoom = delta / 2
    assert_eq!(cam.x, 100 + 256);
    assert_eq!(cam.y, 200 - 512);
    assert_eq!(cam.zoom, 2 * ZOOM_ONE_FX);
}
