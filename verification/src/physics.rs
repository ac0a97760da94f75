//! The axis-separated collision engine shared by every physics body.
//! A step first moves the body by `velocity * dt`, then resolves the
//! vertical axis against the terrain layer, then the horizontal axis:
//! up to six 8-pixel cells are sampled per axis (the four corners of the
//! body, plus one extra row for tall bodies) and, on a hit, the moved
//! coordinate snaps to the cell boundary in the direction of travel and
//! that velocity component is zeroed.  A downward hit grounds the body.

use vstd::prelude::*;

verus! {

use crate::fixed::{
    away_div, away_div_spec, ceil_div, ceil_div_spec, floor_div, floor_div_spec, lemma_div_magnitude,
    lemma_div_scale_bound, lemma_product_bound, mul_div_floor, trunc_div, trunc_div_spec,
    TICKS_PER_SECOND,
};
use crate::level::Level;

/// One 8-pixel collision cell, in subpixels.
pub const CELL_SUB: i64 = 2048;

/// Positions handed to the engine stay within this magnitude.
pub const POS_LIMIT: i64 = 0x100_0000_0000;

/// Velocities handed to the engine stay within this magnitude.
pub const VEL_LIMIT: i64 = 0x100_0000_0000;

/// Longest accepted frame step: one sixtieth of a second, in ticks.
/// Longer real frames are clamped by the caller so that a body can never
/// tunnel through a tile boundary in a single step.
pub const DT_MAX: i64 = 1092;

/// A two-component fixed-point world vector (subpixels, or subpixels per
/// second).
#[derive(Clone, Copy, PartialEq, Eq, Structural, Debug)]
pub struct Vec2Fx {
    pub x: i64,
    pub y: i64,
}

impl Vec2Fx {
    pub fn zero() -> (v: Vec2Fx)
        ensures
            v == (Vec2Fx { x: 0, y: 0 }),
    {
        Vec2Fx { x: 0, y: 0 }
    }
}

/// The grid sizes the engine accepts; the bound keeps every cell-to-tile
/// conversion within machine range.
pub open spec fn grid_in_range(level: Level) -> bool {
    &&& level.wf_grid()
    &&& level.width <= 0x4000_0000
    &&& level.spec_height() <= 0x4000_0000
}

/// A collision cell's tile column or row: cells left of or above the grid
/// saturate to tile 0, mirroring the engine's coordinate cast.
pub open spec fn cell_to_tile(c: int) -> int {
    if c < 0 {
        0
    } else {
        c / 2
    }
}

/// Terrain occupancy of the tile containing collision cell `(cx, cy)`.
pub open spec fn cell_occupied_spec(level: Level, cx: int, cy: int) -> bool {
    level.terrain_occupied(cell_to_tile(cx), cell_to_tile(cy))
}

fn cell_occupied(level: &Level, cx: i64, cy: i64) -> (r: bool)
    requires
        grid_in_range(*level),
    ensures
        r == cell_occupied_spec(*level, cx as int, cy as int),
{
    let tx = if cx < 0 {
        0
    } else {
        floor_div(cx, 2)
    };
    let ty = if cy < 0 {
        0
    } else {
        floor_div(cy, 2)
    };
    proof {
        if cx >= 0 {
            lemma_div_magnitude(cx as int, 2);
        }
        if cy >= 0 {
            lemma_div_magnitude(cy as int, 2);
        }
    }
    if tx >= level.width as i64 || ty >= level.height() as i64 {
        false
    } else {
        let t = level.get_tile(tx as usize, ty as usize);
        t.terrain != 0
    }
}

/// The per-axis sampling pattern: the truncated and the away-rounded
/// cell of the tested `x`, crossed with the rows the tested `y` touches,
/// plus one row further up for tall bodies.  The vertical pass tests the
/// old `x` against the tentative `y`; the horizontal pass tests the
/// tentative `x` against the already-resolved `y`.
pub open spec fn collision_at(level: Level, ex: int, ey: int, tall: bool) -> bool {
    let c0 = trunc_div_spec(ex, CELL_SUB as int);
    let c1 = away_div_spec(ex, CELL_SUB as int);
    let r_away = away_div_spec(ey, CELL_SUB as int);
    let r_trunc = trunc_div_spec(ey, CELL_SUB as int);
    ||| cell_occupied_spec(level, c0, r_away)
    ||| cell_occupied_spec(level, c1, r_away)
    ||| cell_occupied_spec(level, c0, r_trunc)
    ||| cell_occupied_spec(level, c1, r_trunc)
    ||| (tall && (cell_occupied_spec(level, c0, r_trunc - 1) || cell_occupied_spec(
        level,
        c1,
        r_trunc - 1,
    )))
}

fn axis_collides(level: &Level, ex: i64, ey: i64, tall: bool) -> (r: bool)
    requires
        grid_in_range(*level),
        ex > i64::MIN,
        ey > i64::MIN,
    ensures
        r == collision_at(*level, ex as int, ey as int, tall),
{
    let c0 = trunc_div(ex, CELL_SUB);
    let c1 = away_div(ex, CELL_SUB);
    let r_away = away_div(ey, CELL_SUB);
    let r_trunc = trunc_div(ey, CELL_SUB);
    proof {
        lemma_div_magnitude(ex as int, CELL_SUB as int);
        lemma_div_magnitude(-(ex as int), CELL_SUB as int);
        lemma_div_magnitude(ey as int, CELL_SUB as int);
        lemma_div_magnitude(-(ey as int), CELL_SUB as int);
    }
    if cell_occupied(level, c0, r_away) || cell_occupied(level, c1, r_away) || cell_occupied(
        level,
        c0,
        r_trunc,
    ) || cell_occupied(level, c1, r_trunc) {
        return true;
    }
    if tall {
        return cell_occupied(level, c0, r_trunc - 1) || cell_occupied(level, c1, r_trunc - 1);
    }
    false
}

/// Where a moved coordinate lands after a hit: the old coordinate's cell
/// boundary on the side the body was moving toward.
pub open spec fn snap_spec(p: int, toward_negative: bool) -> int {
    if toward_negative {
        floor_div_spec(p, CELL_SUB as int) * CELL_SUB
    } else {
        ceil_div_spec(p, CELL_SUB as int) * CELL_SUB
    }
}

fn snap(p: i64, toward_negative: bool) -> (r: i64)
    requires
        -POS_LIMIT <= p <= POS_LIMIT,
    ensures
        r == snap_spec(p as int, toward_negative),
        -POS_LIMIT - CELL_SUB <= r <= POS_LIMIT + CELL_SUB,
{
    proof {
        lemma_div_magnitude(p as int, CELL_SUB as int);
        lemma_div_magnitude(-(p as int), CELL_SUB as int);
        crate::fixed::lemma_div_brackets(p as int, CELL_SUB as int);
    }
    if toward_negative {
        floor_div(p, CELL_SUB) * CELL_SUB
    } else {
        ceil_div(p, CELL_SUB) * CELL_SUB
    }
}

/// The whole step as one mathematical function: tentative move, vertical
/// resolution, horizontal resolution.  Returns
/// `(new_x, new_y, new_vx, new_vy, grounded)`.
pub open spec fn physics_step_spec(
    level: Level,
    px: int,
    py: int,
    vx: int,
    vy: int,
    dt: int,
    tall: bool,
) -> (int, int, int, int, bool) {
    let nx0 = px + floor_div_spec(vx * dt, TICKS_PER_SECOND as int);
    let ny0 = py + floor_div_spec(vy * dt, TICKS_PER_SECOND as int);
    let vcol = collision_at(level, px, ny0, tall);
    let ny = if vcol {
        snap_spec(py, vy < 0)
    } else {
        ny0
    };
    let vy1: int = if vcol {
        0
    } else {
        vy
    };
    let grounded = vcol && vy >= 0;
    let hcol = collision_at(level, nx0, ny, tall);
    let nx = if hcol {
        snap_spec(px, vx < 0)
    } else {
        nx0
    };
    let vx1: int = if hcol {
        0
    } else {
        vx
    };
    (nx, ny, vx1, vy1, grounded)
}

/// One collision step for one body.  Returns the resolved position and
/// whether the body ended the step grounded; the velocity loses the
/// component of any axis that hit a tile.
pub fn update_physicsbody(
    pos: Vec2Fx,
    velocity: &mut Vec2Fx,
    delta_time: i64,
    world: &Level,
    tall: bool,
) -> (r: (Vec2Fx, bool))
    requires
        grid_in_range(*world),
        -POS_LIMIT <= pos.x <= POS_LIMIT,
        -POS_LIMIT <= pos.y <= POS_LIMIT,
        -VEL_LIMIT <= old(velocity).x <= VEL_LIMIT,
        -VEL_LIMIT <= old(velocity).y <= VEL_LIMIT,
        0 <= delta_time <= DT_MAX,
    ensures
        ({
            let (nx, ny, vx1, vy1, grounded) = physics_step_spec(
                *world,
                pos.x as int,
                pos.y as int,
                old(velocity).x as int,
                old(velocity).y as int,
                delta_time as int,
                tall,
            );
            &&& r.0.x == nx
            &&& r.0.y == ny
            &&& final(velocity).x == vx1
            &&& final(velocity).y == vy1
            &&& r.1 == grounded
        }),
        -POS_LIMIT - 0x8_0000_0000 <= r.0.x <= POS_LIMIT + 0x8_0000_0000,
        -POS_LIMIT - 0x8_0000_0000 <= r.0.y <= POS_LIMIT + 0x8_0000_0000,
{
    proof {
        lemma_product_bound(
            velocity.x as int,
            delta_time as int,
            VEL_LIMIT as int,
            DT_MAX as int,
        );
        lemma_product_bound(
            velocity.y as int,
            delta_time as int,
            VEL_LIMIT as int,
            DT_MAX as int,
        );
        lemma_div_scale_bound(
            velocity.x as int * delta_time as int,
            TICKS_PER_SECOND as int,
            0x8_0000_0000,
        );
        lemma_div_scale_bound(
            velocity.y as int * delta_time as int,
            TICKS_PER_SECOND as int,
            0x8_0000_0000,
        );
    }
    let disp_x = mul_div_floor(velocity.x, delta_time, TICKS_PER_SECOND);
    let disp_y = mul_div_floor(velocity.y, delta_time, TICKS_PER_SECOND);
    let nx0 = pos.x + disp_x;
    let ny0 = pos.y + disp_y;

    let mut grounded = false;
    let mut new_y = ny0;
    if axis_collides(world, pos.x, ny0, tall) {
        if velocity.y >= 0 {
            grounded = true;
        }
        new_y = snap(pos.y, velocity.y < 0);
        velocity.y = 0;
    }

    let mut new_x = nx0;
    if axis_collides(world, nx0, new_y, tall) {
        new_x = snap(pos.x, velocity.x < 0);
        velocity.x = 0;
    }

    (Vec2Fx { x: new_x, y: new_y }, grounded)
}

/// A coordinate sitting exactly on a cell boundary reads the same cell
/// under every rounding mode.
pub proof fn lemma_boundary_cells(m: int)
    ensures
        floor_div_spec(m * CELL_SUB, CELL_SUB as int) == m,
        ceil_div_spec(m * CELL_SUB, CELL_SUB as int) == m,
        trunc_div_spec(m * CELL_SUB, CELL_SUB as int) == m,
        away_div_spec(m * CELL_SUB, CELL_SUB as int) == m,
        (m * CELL_SUB) % (CELL_SUB as int) == 0,
{
    let d = CELL_SUB as int;
    vstd::arithmetic::div_mod::lemma_fundamental_div_mod_converse(m * d, d, m, 0);
    vstd::arithmetic::div_mod::lemma_fundamental_div_mod_converse(-(m * d), d, -m, 0);
}

/// The clamped coordinate of a hit reads cells the body already touched:
/// the snap target's one cell is among the old coordinate's two.
pub proof fn lemma_snap_keeps_clear(level: Level, p: int, ey: int, toward_negative: bool, tall: bool)
    requires
        !collision_at(level, p, ey, tall),
    ensures
        !collision_at(level, snap_spec(p, toward_negative), ey, tall),
{
    let d = CELL_SUB as int;
    let m = if toward_negative {
        floor_div_spec(p, d)
    } else {
        ceil_div_spec(p, d)
    };
    lemma_boundary_cells(m);
    assert(m == trunc_div_spec(p, d) || m == away_div_spec(p, d));
}

/// A body moving horizontally into a solid boundary ends the step with
/// its horizontal velocity zeroed and its `x` clamped to the cell
/// boundary in the direction of travel; and if the body's own column was
/// clear of terrain at the resolved height, the clamped position is
/// still clear — the resolved body never sits inside the wall it hit.
pub proof fn lemma_horizontal_hit(
    level: Level,
    px: int,
    py: int,
    vx: int,
    vy: int,
    dt: int,
    tall: bool,
)
    ensures
        ({
            let (nx, ny, vx1, vy1, grounded) = physics_step_spec(level, px, py, vx, vy, dt, tall);
            let nx0 = px + floor_div_spec(vx * dt, TICKS_PER_SECOND as int);
            &&& collision_at(level, nx0, ny, tall) ==> vx1 == 0 && nx == snap_spec(px, vx < 0)
            &&& (collision_at(level, nx0, ny, tall) && !collision_at(level, px, ny, tall))
                ==> !collision_at(level, nx, ny, tall)
        }),
{
    let (nx, ny, vx1, vy1, grounded) = physics_step_spec(level, px, py, vx, vy, dt, tall);
    let nx0 = px + floor_div_spec(vx * dt, TICKS_PER_SECOND as int);
    if collision_at(level, nx0, ny, tall) && !collision_at(level, px, ny, tall) {
        lemma_snap_keeps_clear(level, px, ny, vx < 0, tall);
    }
}

/// A grounded body at rest stays exactly where it is: with no horizontal
/// velocity, a resting `y` on a cell boundary, solid ground in the row
/// below and free cells around the body, one step under gravity resolves
/// back to the same position, re-grounds the body and zeroes the small
/// downward velocity gravity added.
pub proof fn lemma_rest_step(level: Level, px: int, py: int, vy: int, dt: int, tall: bool)
    requires
        0 <= py,
        py % (CELL_SUB as int) == 0,
        0 <= vy,
        1 <= floor_div_spec(vy * dt, TICKS_PER_SECOND as int) < CELL_SUB,
        cell_occupied_spec(
            level,
            trunc_div_spec(px, CELL_SUB as int),
            py / (CELL_SUB as int) + 1,
        ) || cell_occupied_spec(
            level,
            away_div_spec(px, CELL_SUB as int),
            py / (CELL_SUB as int) + 1,
        ),
        !collision_at(level, px, py, tall),
    ensures
        physics_step_spec(level, px, py, 0, vy, dt, tall) == (px, py, 0int, 0int, true),
{
    let d = CELL_SUB as int;
    let t = TICKS_PER_SECOND as int;
    let k = py / d;
    let disp = floor_div_spec(vy * dt, t);
    let ny0 = py + disp;
    crate::fixed::lemma_div_brackets(py, d);
    assert(py == k * d) by {
        vstd::arithmetic::div_mod::lemma_fundamental_div_mod(py, d);
    }
    lemma_boundary_cells(k);
    vstd::arithmetic::div_mod::lemma_fundamental_div_mod_converse(ny0, d, k, disp);
    assert(away_div_spec(ny0, d) == k + 1) by {
        crate::fixed::lemma_div_brackets(ny0, d);
    }
    assert(trunc_div_spec(ny0, d) == k);
    assert(collision_at(level, px, ny0, tall));
    assert(floor_div_spec(0 * dt, t) == 0) by {
        assert(0 * dt == 0) by (nonlinear_arith);
        vstd::arithmetic::div_mod::lemma_fundamental_div_mod_converse(0, t, 0, 0);
    }
    assert(snap_spec(py, false) == py);
}

} // verus!
