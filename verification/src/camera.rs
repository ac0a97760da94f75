//! The editor camera: a pan/zoom pair in screen-to-world space.  Zoom is
//! a Q16 fixed-point scalar with a hard floor; zooming is anchored at a
//! screen origin by recomputing the world point under that origin before
//! and after the zoom change, so the anchored point stays visually fixed.

use vstd::prelude::*;

verus! {

use crate::fixed::{floor_div_spec, lemma_div_scale_bound, mul_div_floor};

/// The reference screen size, in subpixels (512 x 288 pixels).
pub const SCREEN_W_SUB: i64 = 131072;

pub const SCREEN_H_SUB: i64 = 73728;

/// Half the reference screen, the anchor formulas' recentering shift.
pub const HALF_SCREEN_W_SUB: i64 = 65536;

pub const HALF_SCREEN_H_SUB: i64 = 36864;

/// One, in the camera's Q16 zoom scale.
pub const ZOOM_ONE_FX: i64 = 65536;

/// The hard zoom floor (about a thousandth).
pub const MIN_ZOOM_FX: i64 = 66;

/// The zoom magnitude the camera functions accept.
pub const ZOOM_IN_MAX_FX: i64 = 0x1_0000_0000;

/// Camera offsets the camera functions accept.
pub const CAM_LIMIT: i64 = 0x100_0000_0000;

/// Screen coordinates and pan deltas the camera functions accept.
pub const SCREEN_COORD_LIMIT: i64 = 0x10_0000;

#[derive(Clone, Copy, PartialEq, Eq, Structural, Debug)]
pub struct Camera {
    pub x: i64,
    pub y: i64,
    pub zoom: i64,
}

pub open spec fn camera_in_range(c: Camera) -> bool {
    &&& MIN_ZOOM_FX <= c.zoom <= ZOOM_IN_MAX_FX
    &&& -CAM_LIMIT <= c.x <= CAM_LIMIT
    &&& -CAM_LIMIT <= c.y <= CAM_LIMIT
}

/// The world point under a screen point, for the zoom anchor: screen
/// divided by zoom, shifted by the camera offset, recentered on the
/// screen's middle.  One axis; the `y` axis uses the same formula with
/// `SCREEN_H_SUB`.
pub open spec fn anchor_world_spec(cam_offset: int, zoom: int, screen: int, half_screen: int) -> int {
    floor_div_spec(screen * ZOOM_ONE_FX as int, zoom) + cam_offset - half_screen
}

/// The zoom value one wheel step away, before the floor is applied:
/// one-point-one times closer or farther.
pub open spec fn zoom_step_raw_spec(zoom: int, zoom_in: bool) -> int {
    if zoom_in {
        floor_div_spec(zoom * 11, 10)
    } else {
        floor_div_spec(zoom * 10, 11)
    }
}

impl Camera {
    /// One wheel step anchored at the screen point `(ox, oy)`: the zoom
    /// scales by the step factor, never below the floor, and the camera
    /// offset moves so that the world point that was under the anchor
    /// stays under it — the last two clauses state that anchor
    /// invariance exactly.
    pub fn zoom_at(&mut self, ox: i64, oy: i64, zoom_in: bool)
        requires
            camera_in_range(*old(self)),
            -SCREEN_COORD_LIMIT <= ox <= SCREEN_COORD_LIMIT,
            -SCREEN_COORD_LIMIT <= oy <= SCREEN_COORD_LIMIT,
        ensures
            final(self).zoom == if zoom_step_raw_spec(old(self).zoom as int, zoom_in)
                > MIN_ZOOM_FX {
                zoom_step_raw_spec(old(self).zoom as int, zoom_in)
            } else {
                MIN_ZOOM_FX as int
            },
            final(self).x == anchor_world_spec(
                old(self).x as int,
                old(self).zoom as int,
                ox as int,
                HALF_SCREEN_W_SUB as int,
            ) + HALF_SCREEN_W_SUB as int - floor_div_spec(
                ox as int * ZOOM_ONE_FX as int,
                final(self).zoom as int,
            ),
            final(self).y == anchor_world_spec(
                old(self).y as int,
                old(self).zoom as int,
                oy as int,
                HALF_SCREEN_H_SUB as int,
            ) + HALF_SCREEN_H_SUB as int - floor_div_spec(
                oy as int * ZOOM_ONE_FX as int,
                final(self).zoom as int,
            ),
            anchor_world_spec(
                final(self).x as int,
                final(self).zoom as int,
                ox as int,
                HALF_SCREEN_W_SUB as int,
            ) == anchor_world_spec(
                old(self).x as int,
                old(self).zoom as int,
                ox as int,
                HALF_SCREEN_W_SUB as int,
            ),
            anchor_world_spec(
                final(self).y as int,
                final(self).zoom as int,
                oy as int,
                HALF_SCREEN_H_SUB as int,
            ) == anchor_world_spec(
                old(self).y as int,
                old(self).zoom as int,
                oy as int,
                HALF_SCREEN_H_SUB as int,
            ),
            MIN_ZOOM_FX <= final(self).zoom,
    {
        let old_world_x = screen_over_zoom(ox, self.zoom) + self.x - HALF_SCREEN_W_SUB;
        let old_world_y = screen_over_zoom(oy, self.zoom) + self.y - HALF_SCREEN_H_SUB;
        let raw = if zoom_in {
            mul_div_floor(self.zoom, 11, 10)
        } else {
            mul_div_floor(self.zoom, 10, 11)
        };
        proof {
            lemma_div_scale_bound(old(self).zoom as int * 11, 10, 0x2_0000_0000);
            lemma_div_scale_bound(old(self).zoom as int * 10, 11, 0x2_0000_0000);
        }
        self.zoom = if raw > MIN_ZOOM_FX {
            raw
        } else {
            MIN_ZOOM_FX
        };
        self.x = old_world_x + HALF_SCREEN_W_SUB - screen_over_zoom(ox, self.zoom);
        self.y = old_world_y + HALF_SCREEN_H_SUB - screen_over_zoom(oy, self.zoom);
    }

    /// A middle-mouse pan: the offset moves by the screen delta scaled
    /// inversely by the zoom.
    pub fn pan(&mut self, dx: i64, dy: i64)
        requires
            camera_in_range(*old(self)),
            -SCREEN_COORD_LIMIT <= dx <= SCREEN_COORD_LIMIT,
            -SCREEN_COORD_LIMIT <= dy <= SCREEN_COORD_LIMIT,
        ensures
            final(self).x == old(self).x + floor_div_spec(
                dx as int * ZOOM_ONE_FX as int,
                old(self).zoom as int,
            ),
            final(self).y == old(self).y + floor_div_spec(
                dy as int * ZOOM_ONE_FX as int,
                old(self).zoom as int,
            ),
            final(self).zoom == old(self).zoom,
    {
        self.x = self.x + screen_over_zoom(dx, self.zoom);
        self.y = self.y + screen_over_zoom(dy, self.zoom);
    }
}

/// A screen distance divided by a zoom factor, in world subpixels.
fn screen_over_zoom(s: i64, zoom: i64) -> (r: i64)
    requires
        -SCREEN_COORD_LIMIT <= s <= SCREEN_COORD_LIMIT,
        MIN_ZOOM_FX <= zoom,
    ensures
        r == floor_div_spec(s as int * ZOOM_ONE_FX as int, zoom as int),
        -0x10_0000_0000 <= r <= 0x10_0000_0000,
{
    proof {
        crate::fixed::lemma_product_bound(
            s as int,
            ZOOM_ONE_FX as int,
            SCREEN_COORD_LIMIT as int,
            ZOOM_ONE_FX as int,
        );
        assert(0x10_0000_0000 * (zoom as int) >= SCREEN_COORD_LIMIT as int * ZOOM_ONE_FX as int)
            by (nonlinear_arith)
            requires
                zoom >= MIN_ZOOM_FX,
        ;
        lemma_div_scale_bound(s as int * ZOOM_ONE_FX as int, zoom as int, 0x10_0000_0000);
    }
    mul_div_floor(s, ZOOM_ONE_FX, zoom)
}

} // verus!
