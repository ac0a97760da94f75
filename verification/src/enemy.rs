//! A patrolling enemy body: constant-speed horizontal motion under
//! gravity through the shared collision step, reversing direction
//! exactly when the horizontal pass takes speed away (that is, when it
//! ran into a wall).

use vstd::prelude::*;

verus! {

use crate::fixed::{abs_spec, floor_div_spec, lemma_div_scale_bound, mul_div_floor,
    TICKS_PER_SECOND};
use crate::level::Level;
use crate::physics::{collision_at, grid_in_range, physics_step_spec, snap_spec,
    update_physicsbody, Vec2Fx, DT_MAX, POS_LIMIT, VEL_LIMIT};
use crate::player::{GRAVITY_SUB, VY_LIMIT};

/// Patrol speed, 32 pixels per second in subpixels.
pub const ENEMY_SPEED_SUB: i64 = 8192;

/// A live enemy: body state plus its animation slot and time, and the
/// death animation counter (zero while alive).
#[derive(Clone, Copy, PartialEq, Eq, Structural, Debug)]
pub struct Enemy {
    pub pos: Vec2Fx,
    pub animation: usize,
    pub time: i64,
    pub moving_left: bool,
    pub velocity: Vec2Fx,
    pub death_ticks: i64,
}

pub open spec fn enemy_in_range(e: Enemy) -> bool {
    &&& -POS_LIMIT <= e.pos.x <= POS_LIMIT
    &&& -POS_LIMIT <= e.pos.y <= POS_LIMIT
    &&& -VY_LIMIT <= e.velocity.y <= VY_LIMIT
    &&& 0 <= e.time <= 0x1000_0000_0000_0000
}

/// The patrol velocity a step starts from.
pub open spec fn patrol_vx_spec(moving_left: bool) -> int {
    if moving_left {
        -ENEMY_SPEED_SUB as int
    } else {
        ENEMY_SPEED_SUB as int
    }
}

/// Whether the step's horizontal pass hits a wall: the tentative `x`
/// against the vertically-resolved `y`.
pub open spec fn enemy_step_hits_wall(e0: Enemy, dt: int, level: Level) -> bool {
    let vy0 = e0.velocity.y + floor_div_spec(GRAVITY_SUB as int * dt, TICKS_PER_SECOND as int);
    let vx0 = patrol_vx_spec(e0.moving_left);
    let nx0 = e0.pos.x + floor_div_spec(vx0 * dt, TICKS_PER_SECOND as int);
    let ny0 = e0.pos.y + floor_div_spec(vy0 * dt, TICKS_PER_SECOND as int);
    let vcol = collision_at(level, e0.pos.x as int, ny0, true);
    let ny = if vcol {
        snap_spec(e0.pos.y as int, vy0 < 0)
    } else {
        ny0
    };
    collision_at(level, nx0, ny, true)
}

/// Everything one enemy step does.
pub open spec fn enemy_step_post(e0: Enemy, e1: Enemy, dt: int, level: Level) -> bool {
    let vy0 = e0.velocity.y + floor_div_spec(GRAVITY_SUB as int * dt, TICKS_PER_SECOND as int);
    let vx0 = patrol_vx_spec(e0.moving_left);
    let (nx, ny, vx1, vy1, _grounded) = physics_step_spec(
        level,
        e0.pos.x as int,
        e0.pos.y as int,
        vx0,
        vy0,
        dt,
        true,
    );
    &&& e1.pos.x == nx
    &&& e1.pos.y == ny
    &&& e1.velocity.x == vx1
    &&& e1.velocity.y == vy1
    &&& e1.moving_left == (if abs_spec(vx1) < abs_spec(vx0) {
        !e0.moving_left
    } else {
        e0.moving_left
    })
    &&& e1.time == e0.time + dt
    &&& e1.death_ticks == e0.death_ticks
    &&& e1.animation == e0.animation
}

/// The step as a function of the incoming state: the same contract as
/// `enemy_step_post`, packaged as the state it determines.
pub open spec fn enemy_stepped(e0: Enemy, dt: int, level: Level) -> Enemy {
    let vy0 = e0.velocity.y + floor_div_spec(GRAVITY_SUB as int * dt, TICKS_PER_SECOND as int);
    let vx0 = patrol_vx_spec(e0.moving_left);
    let (nx, ny, vx1, vy1, _grounded) = physics_step_spec(
        level,
        e0.pos.x as int,
        e0.pos.y as int,
        vx0,
        vy0,
        dt,
        true,
    );
    Enemy {
        pos: Vec2Fx { x: nx as i64, y: ny as i64 },
        animation: e0.animation,
        time: (e0.time + dt) as i64,
        moving_left: if abs_spec(vx1) < abs_spec(vx0) {
            !e0.moving_left
        } else {
            e0.moving_left
        },
        velocity: Vec2Fx { x: vx1 as i64, y: vy1 as i64 },
        death_ticks: e0.death_ticks,
    }
}

/// The step relation determines the outgoing state.
pub proof fn lemma_enemy_step_fn(e0: Enemy, e1: Enemy, dt: int, level: Level)
    requires
        enemy_step_post(e0, e1, dt, level),
    ensures
        e1 == enemy_stepped(e0, dt, level),
{
}

impl Enemy {
    /// A freshly spawned enemy at `pos`, walking left, as every enemy
    /// starts out.
    pub fn new(pos: Vec2Fx, animation: usize) -> (e: Enemy)
        ensures
            e.pos == pos,
            e.animation == animation,
            e.time == 0,
            e.moving_left,
            e.velocity == (Vec2Fx { x: 0, y: 0 }),
            e.death_ticks == 0,
    {
        Enemy {
            pos,
            animation,
            time: 0,
            moving_left: true,
            velocity: Vec2Fx::zero(),
            death_ticks: 0,
        }
    }

    /// One patrol step.  The direction reverses exactly when the
    /// resolved horizontal velocity is smaller in magnitude than the
    /// patrol velocity the step started from, and that happens exactly
    /// when the horizontal pass hit a wall.
    pub fn update(&mut self, delta_time: i64, level: &Level)
        requires
            grid_in_range(*level),
            enemy_in_range(*old(self)),
            0 < delta_time <= DT_MAX,
        ensures
            enemy_step_post(*old(self), *final(self), delta_time as int, *level),
            (final(self).moving_left != old(self).moving_left) == enemy_step_hits_wall(
                *old(self),
                delta_time as int,
                *level,
            ),
            -VY_LIMIT - 0x2000 <= final(self).velocity.y <= VY_LIMIT + 0x2000,
            -POS_LIMIT - 0x8_0000_0000 <= final(self).pos.x <= POS_LIMIT + 0x8_0000_0000,
            -POS_LIMIT - 0x8_0000_0000 <= final(self).pos.y <= POS_LIMIT + 0x8_0000_0000,
    {
        let gravity_dv = mul_div_floor(GRAVITY_SUB, delta_time, TICKS_PER_SECOND);
        proof {
            lemma_div_scale_bound(
                GRAVITY_SUB as int * delta_time as int,
                TICKS_PER_SECOND as int,
                0x2000,
            );
        }
        self.velocity.y = self.velocity.y + gravity_dv;
        self.velocity.x = if self.moving_left {
            -ENEMY_SPEED_SUB
        } else {
            ENEMY_SPEED_SUB
        };
        self.time = self.time + delta_time;

        let old_vx = self.velocity.x;
        let (new_pos, _grounded) = update_physicsbody(
            self.pos,
            &mut self.velocity,
            delta_time,
            level,
            true,
        );
        self.pos = new_pos;

        let old_abs = if old_vx < 0 {
            -old_vx
        } else {
            old_vx
        };
        let new_abs = if self.velocity.x < 0 {
            -self.velocity.x
        } else {
            self.velocity.x
        };
        if old_abs > new_abs {
            self.moving_left = !self.moving_left;
        }
    }
}

} // verus!
