//! The player body: movement forces (input acceleration, ground friction
//! or air drag with a sharper stop when no direction is held), gravity,
//! the jump buffer that allows an initial impulse and then a smaller held
//! force inside a grace window, and the shared collision step.

use vstd::prelude::*;

verus! {

use crate::fixed::{abs_spec, clamp_spec, floor_div_spec, lemma_div_magnitude, lemma_div_scale_bound,
    lemma_product_bound, mul_div_floor, clamp_i64, abs_i64, TICKS_PER_SECOND};
use crate::level::Level;
use crate::physics::{grid_in_range, physics_step_spec, update_physicsbody, Vec2Fx, DT_MAX,
    POS_LIMIT};

/// Gravity, in subpixels per second per second.
pub const GRAVITY_SUB: i64 = 322560;

/// Horizontal input acceleration, in subpixels per second per second.
pub const ACCELERATION_SUB: i64 = 460800;

/// Horizontal speed cap, in subpixels per second.
pub const MAX_VELOCITY_SUB: i64 = 48640;

/// Instant upward impulse on the initial jump press.
pub const JUMP_IMPULSE_SUB: i64 = 55296;

/// Continuous upward acceleration while the jump key stays held.
pub const JUMP_HOLD_ACCEL_SUB: i64 = 166400;

/// The jump buffer window: half a second, in ticks.
pub const JUMP_WINDOW_TICKS: i64 = 32768;

/// Ground friction, 10.2 per second, kept as the fraction 51 / 5.
pub const GROUND_FRICTION_NUM: i64 = 51;

/// Air drag, 4.2 per second, kept as the fraction 21 / 5.
pub const AIR_DRAG_NUM: i64 = 21;

/// Denominator shared by the two friction fractions.
pub const FRICTION_DEN: i64 = 5;

/// Vertical speeds the step accepts; one step adds far less than the
/// headroom to `i64`, and the caller re-checks the bound each frame.
pub const VY_LIMIT: i64 = 0x2000_0000;

/// Elapsed-time values the step accepts without overflowing.
pub const TIME_LIMIT: i64 = 0x1000_0000_0000_0000;

/// The per-frame input the player consumes: the horizontal axis as
/// -1, 0 or 1, and whether the jump key is held.
#[derive(Clone, Copy, PartialEq, Eq, Structural, Debug)]
pub struct PlayerInput {
    pub axis_x: i8,
    pub jump_held: bool,
}

/// The player's physics body and animation bookkeeping.
#[derive(Clone, Copy, PartialEq, Eq, Structural, Debug)]
pub struct Player {
    pub pos: Vec2Fx,
    pub camera_pos: Vec2Fx,
    pub velocity: Vec2Fx,
    pub move_x: i8,
    pub crouching: bool,
    pub time: i64,
    pub grounded: bool,
    pub jump_ticks: i64,
    pub moving: bool,
}

/// The state bounds every step preserves up to one step's growth.
pub open spec fn player_in_range(p: Player) -> bool {
    &&& -POS_LIMIT <= p.pos.x <= POS_LIMIT
    &&& -POS_LIMIT <= p.pos.y <= POS_LIMIT
    &&& -MAX_VELOCITY_SUB <= p.velocity.x <= MAX_VELOCITY_SUB
    &&& -VY_LIMIT <= p.velocity.y <= VY_LIMIT
    &&& 0 <= p.time <= TIME_LIMIT
    &&& 0 <= p.jump_ticks <= JUMP_WINDOW_TICKS + DT_MAX
    &&& -1 <= p.move_x <= 1
}

/// The horizontal velocity after the opposite-input rule: steering
/// against the current motion zeroes the velocity outright.
pub open spec fn counter_steer_spec(vx: int, axis: int) -> int {
    if abs_spec(vx) > 256 * abs_spec(axis) && ((vx < 0 && axis > 0) || (vx > 0 && axis < 0)) {
        0
    } else {
        vx
    }
}

/// The net horizontal force: input acceleration minus velocity-
/// proportional friction, with the sharper multiplier when no direction
/// is held and the ground or air coefficient by grounding.
pub open spec fn horizontal_force_spec(vx: int, axis: int, grounded: bool) -> int {
    let friction_mod: int = if axis != 0 {
        1
    } else {
        5
    };
    let k: int = if grounded {
        GROUND_FRICTION_NUM as int
    } else {
        AIR_DRAG_NUM as int
    };
    axis * ACCELERATION_SUB - floor_div_spec(vx * (k * friction_mod), FRICTION_DEN as int)
}

/// The vertical velocity contributed by the jump key: the full impulse
/// on the press that starts the buffer, the smaller held force while the
/// buffer is inside the window.
pub open spec fn jump_applies(jump_held: bool, grounded: bool, jt: int) -> bool {
    jump_held && (grounded || (0 < jt < JUMP_WINDOW_TICKS))
}

/// Everything one player step does, stated over the incoming and the
/// outgoing state.
pub open spec fn player_step_post(
    p0: Player,
    p1: Player,
    input: PlayerInput,
    dt: int,
    level: Level,
) -> bool {
    let vy_g = p0.velocity.y + floor_div_spec(GRAVITY_SUB as int * dt, TICKS_PER_SECOND as int);
    let moving = input.axis_x != 0;
    let vx_z = counter_steer_spec(p0.velocity.x as int, input.axis_x as int);
    let forces_x = horizontal_force_spec(vx_z, input.axis_x as int, p0.grounded);
    let jt0: int = if p0.grounded {
        0
    } else {
        p0.jump_ticks as int
    };
    let jumping = jump_applies(input.jump_held, p0.grounded, jt0);
    let vy_j = if jumping {
        if jt0 == 0 {
            vy_g - JUMP_IMPULSE_SUB
        } else {
            vy_g - floor_div_spec(JUMP_HOLD_ACCEL_SUB as int * dt, TICKS_PER_SECOND as int)
        }
    } else {
        vy_g
    };
    let jt1 = if jumping {
        jt0 + dt
    } else {
        jt0
    };
    let vx1 = clamp_spec(
        vx_z + floor_div_spec(forces_x * dt, TICKS_PER_SECOND as int),
        -MAX_VELOCITY_SUB as int,
        MAX_VELOCITY_SUB as int,
    );
    let (nx, ny, vx2, vy2, grounded) = physics_step_spec(
        level,
        p0.pos.x as int,
        p0.pos.y as int,
        vx1,
        vy_j,
        dt,
        !p0.crouching,
    );
    &&& p1.pos.x == nx
    &&& p1.pos.y == ny
    &&& p1.camera_pos == p1.pos
    &&& p1.velocity.x == vx2
    &&& p1.velocity.y == vy2
    &&& p1.grounded == grounded
    &&& p1.time == p0.time + dt
    &&& p1.jump_ticks == jt1
    &&& p1.moving == moving
    &&& p1.move_x == (if moving {
        input.axis_x
    } else {
        p0.move_x
    })
    &&& p1.crouching == p0.crouching
}

/// Whether the legs show the walking animation: held input and a speed
/// over one pixel a second.
pub open spec fn legs_walk_spec(moving: bool, vx: int, vy: int) -> bool {
    moving && vx * vx + vy * vy > 65536
}

/// Picks the walking or the idle legs animation for a drawn frame.
pub fn legs_walking(moving: bool, vx: i64, vy: i64) -> (r: bool)
    requires
        -0x4000_0000 <= vx <= 0x4000_0000,
        -0x4000_0000 <= vy <= 0x4000_0000,
    ensures
        r == legs_walk_spec(moving, vx as int, vy as int),
{
    proof {
        lemma_product_bound(vx as int, vx as int, 0x4000_0000, 0x4000_0000);
        lemma_product_bound(vy as int, vy as int, 0x4000_0000, 0x4000_0000);
    }
    moving && vx * vx + vy * vy > 65536
}

/// Picks the jumping or the idle torso animation: rising faster than one
/// pixel a second.
pub fn torso_jumping(vy: i64) -> (r: bool)
    ensures
        r == (vy < -256),
{
    vy < -256
}

/// The step as a function of the incoming state: the same contract as
/// `player_step_post`, packaged as the state it determines.
pub open spec fn player_stepped(p0: Player, input: PlayerInput, dt: int, level: Level) -> Player {
    let vy_g = p0.velocity.y + floor_div_spec(GRAVITY_SUB as int * dt, TICKS_PER_SECOND as int);
    let moving = input.axis_x != 0;
    let vx_z = counter_steer_spec(p0.velocity.x as int, input.axis_x as int);
    let forces_x = horizontal_force_spec(vx_z, input.axis_x as int, p0.grounded);
    let jt0: int = if p0.grounded {
        0
    } else {
        p0.jump_ticks as int
    };
    let jumping = jump_applies(input.jump_held, p0.grounded, jt0);
    let vy_j = if jumping {
        if jt0 == 0 {
            vy_g - JUMP_IMPULSE_SUB
        } else {
            vy_g - floor_div_spec(JUMP_HOLD_ACCEL_SUB as int * dt, TICKS_PER_SECOND as int)
        }
    } else {
        vy_g
    };
    let jt1 = if jumping {
        jt0 + dt
    } else {
        jt0
    };
    let vx1 = clamp_spec(
        vx_z + floor_div_spec(forces_x * dt, TICKS_PER_SECOND as int),
        -MAX_VELOCITY_SUB as int,
        MAX_VELOCITY_SUB as int,
    );
    let (nx, ny, vx2, vy2, grounded) = physics_step_spec(
        level,
        p0.pos.x as int,
        p0.pos.y as int,
        vx1,
        vy_j,
        dt,
        !p0.crouching,
    );
    Player {
        pos: Vec2Fx { x: nx as i64, y: ny as i64 },
        camera_pos: Vec2Fx { x: nx as i64, y: ny as i64 },
        velocity: Vec2Fx { x: vx2 as i64, y: vy2 as i64 },
        move_x: if moving {
            input.axis_x
        } else {
            p0.move_x
        },
        crouching: p0.crouching,
        time: (p0.time + dt) as i64,
        grounded,
        jump_ticks: jt1 as i64,
        moving,
    }
}

/// The step relation determines the outgoing state.
pub proof fn lemma_player_step_fn(p0: Player, p1: Player, input: PlayerInput, dt: int, level: Level)
    requires
        player_step_post(p0, p1, input, dt, level),
    ensures
        p1 == player_stepped(p0, input, dt, level),
{
}

/// A grounded body at rest stays put: with zero horizontal velocity, no
/// input and no jump held, a step moves the body down by less than one
/// cell and resolves it straight back to the same `(x, y)`; when gravity
/// actually displaces it into the ground row, the step also re-grounds
/// the body and zeroes its velocity again.
pub proof fn lemma_player_rest(
    p0: Player,
    p1: Player,
    input: PlayerInput,
    dt: int,
    level: Level,
)
    requires
        player_step_post(p0, p1, input, dt, level),
        input.axis_x == 0,
        !input.jump_held,
        p0.velocity.x == 0,
        p0.velocity.y == 0,
        p0.grounded,
        0 < dt <= DT_MAX,
        0 <= p0.pos.y,
        (p0.pos.y as int) % (crate::physics::CELL_SUB as int) == 0,
        ({
            let vy_g = floor_div_spec(GRAVITY_SUB as int * dt, TICKS_PER_SECOND as int);
            0 <= floor_div_spec(vy_g * dt, TICKS_PER_SECOND as int)
                < crate::physics::CELL_SUB
        }),
        crate::physics::cell_occupied_spec(
            level,
            crate::fixed::trunc_div_spec(p0.pos.x as int, crate::physics::CELL_SUB as int),
            p0.pos.y as int / (crate::physics::CELL_SUB as int) + 1,
        ) || crate::physics::cell_occupied_spec(
            level,
            crate::fixed::away_div_spec(p0.pos.x as int, crate::physics::CELL_SUB as int),
            p0.pos.y as int / (crate::physics::CELL_SUB as int) + 1,
        ),
        !crate::physics::collision_at(level, p0.pos.x as int, p0.pos.y as int, !p0.crouching),
    ensures
        p1.pos.x == p0.pos.x,
        p1.pos.y == p0.pos.y,
        ({
            let vy_g = floor_div_spec(GRAVITY_SUB as int * dt, TICKS_PER_SECOND as int);
            1 <= floor_div_spec(vy_g * dt, TICKS_PER_SECOND as int)
        }) ==> (p1.velocity.x == 0 && p1.velocity.y == 0 && p1.grounded),
{
    let t = TICKS_PER_SECOND as int;
    let d = crate::physics::CELL_SUB as int;
    let px = p0.pos.x as int;
    let py = p0.pos.y as int;
    let vy_g = floor_div_spec(GRAVITY_SUB as int * dt, t);
    let disp = floor_div_spec(vy_g * dt, t);
    assert(vy_g >= 0 && disp >= 0) by {
        lemma_product_bound(GRAVITY_SUB as int, dt, GRAVITY_SUB as int, DT_MAX as int);
        lemma_div_magnitude(GRAVITY_SUB as int * dt, t);
        lemma_product_bound(vy_g, dt, 0x2000, DT_MAX as int);
        lemma_div_magnitude(vy_g * dt, t);
        lemma_div_scale_bound(GRAVITY_SUB as int * dt, t, 0x2000);
        assert(GRAVITY_SUB as int * dt >= 0) by (nonlinear_arith)
            requires
                dt > 0,
        ;
        assert(vy_g * dt >= 0) by (nonlinear_arith)
            requires
                vy_g >= 0,
                dt > 0,
        ;
    }
    // the controls leave a resting body alone
    assert(counter_steer_spec(0, 0) == 0);
    assert(floor_div_spec(0, 5) == 0 && floor_div_spec(0, t) == 0) by {
        vstd::arithmetic::div_mod::lemma_fundamental_div_mod_converse(0, 5, 0, 0);
        vstd::arithmetic::div_mod::lemma_fundamental_div_mod_converse(0, t, 0, 0);
    }
    assert(horizontal_force_spec(0, 0, true) == 0) by {
        assert(0 * (GROUND_FRICTION_NUM as int * 5) == 0) by (nonlinear_arith);
    }
    assert(0 * dt == 0) by (nonlinear_arith);
    if disp >= 1 {
        crate::physics::lemma_rest_step(level, px, py, vy_g, dt, !p0.crouching);
    } else {
        // gravity too weak to cross into the next row: the tentative
        // position is the old one, and the old cells are free
        crate::physics::lemma_boundary_cells(py / d);
        assert(py == (py / d) * d) by {
            vstd::arithmetic::div_mod::lemma_fundamental_div_mod(py, d);
        }
    }
}

impl Player {
    /// The state a freshly spawned body has: at rest, grounded, facing
    /// ahead.
    pub open spec fn new_spec(pos: Vec2Fx) -> Player {
        Player {
            pos,
            camera_pos: pos,
            velocity: Vec2Fx { x: 0, y: 0 },
            move_x: 0,
            crouching: false,
            time: 0,
            grounded: true,
            jump_ticks: 0,
            moving: false,
        }
    }

    /// A freshly spawned body at `pos`.
    pub fn new(pos: Vec2Fx) -> (p: Player)
        ensures
            p == Player::new_spec(pos),
    {
        Player {
            pos,
            camera_pos: pos,
            velocity: Vec2Fx::zero(),
            move_x: 0,
            crouching: false,
            time: 0,
            grounded: true,
            jump_ticks: 0,
            moving: false,
        }
    }

    /// One frame of the player: forces, jump buffer, collision step.
    #[verifier::rlimit(80)]
    pub fn update(&mut self, input: PlayerInput, delta_time: i64, level: &Level)
        requires
            grid_in_range(*level),
            player_in_range(*old(self)),
            -1 <= input.axis_x <= 1,
            0 < delta_time <= DT_MAX,
        ensures
            player_step_post(*old(self), *final(self), input, delta_time as int, *level),
            -MAX_VELOCITY_SUB <= final(self).velocity.x <= MAX_VELOCITY_SUB,
            -VY_LIMIT - 0x20000 <= final(self).velocity.y <= VY_LIMIT + 0x20000,
            -POS_LIMIT - 0x8_0000_0000 <= final(self).pos.x <= POS_LIMIT + 0x8_0000_0000,
            -POS_LIMIT - 0x8_0000_0000 <= final(self).pos.y <= POS_LIMIT + 0x8_0000_0000,
            0 <= final(self).jump_ticks <= JUMP_WINDOW_TICKS + DT_MAX,
    {
        let gravity_dv = mul_div_floor(GRAVITY_SUB, delta_time, TICKS_PER_SECOND);
        proof {
            lemma_div_scale_bound(
                GRAVITY_SUB as int * delta_time as int,
                TICKS_PER_SECOND as int,
                0x2000,
            );
        }
        self.velocity.y = self.velocity.y + gravity_dv;
        self.time = self.time + delta_time;

        let moving = input.axis_x != 0;
        self.moving = moving;
        if moving {
            self.move_x = input.axis_x;
        }

        let vx_abs = abs_i64(self.velocity.x);
        let axis_abs: i64 = if input.axis_x < 0 {
            256
        } else if input.axis_x > 0 {
            256
        } else {
            0
        };
        if vx_abs > axis_abs && ((self.velocity.x < 0 && input.axis_x > 0) || (self.velocity.x > 0
            && input.axis_x < 0)) {
            self.velocity.x = 0;
        }

        let friction_mod: i64 = if moving {
            1
        } else {
            5
        };
        let k: i64 = if self.grounded {
            GROUND_FRICTION_NUM
        } else {
            AIR_DRAG_NUM
        };
        let km = k * friction_mod;
        proof {
            lemma_product_bound(self.velocity.x as int, km as int, 0x10000, 0x100);
        }
        let friction = mul_div_floor(self.velocity.x, km, FRICTION_DEN);
        proof {
            lemma_div_magnitude(self.velocity.x as int * km as int, FRICTION_DEN as int);
        }
        let forces_x = (input.axis_x as i64) * ACCELERATION_SUB - friction;

        if self.grounded {
            self.jump_ticks = 0;
        }
        if input.jump_held && (self.grounded || (self.jump_ticks > 0 && self.jump_ticks
            < JUMP_WINDOW_TICKS)) {
            if self.jump_ticks == 0 {
                self.velocity.y = self.velocity.y - JUMP_IMPULSE_SUB;
            } else {
                let hold_dv = mul_div_floor(JUMP_HOLD_ACCEL_SUB, delta_time, TICKS_PER_SECOND);
                proof {
                    lemma_div_scale_bound(
                        JUMP_HOLD_ACCEL_SUB as int * delta_time as int,
                        TICKS_PER_SECOND as int,
                        0x1000,
                    );
                }
                self.velocity.y = self.velocity.y - hold_dv;
            }
            self.jump_ticks = self.jump_ticks + delta_time;
        }

        proof {
            lemma_product_bound(forces_x as int, delta_time as int, 0x200_0000, DT_MAX as int);
        }
        let dvx = mul_div_floor(forces_x, delta_time, TICKS_PER_SECOND);
        proof {
            lemma_div_scale_bound(
                forces_x as int * delta_time as int,
                TICKS_PER_SECOND as int,
                0x100_0000,
            );
        }
        self.velocity.x = clamp_i64(self.velocity.x + dvx, -MAX_VELOCITY_SUB, MAX_VELOCITY_SUB);

        let (new_pos, grounded) = update_physicsbody(
            self.pos,
            &mut self.velocity,
            delta_time,
            level,
            !self.crouching,
        );
        self.pos = new_pos;
        self.grounded = grounded;
        self.camera_pos = new_pos;
    }
}

} // verus!
