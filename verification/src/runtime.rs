//! The runtime session: the player body, the live enemies spawned from
//! the level's markers, the stomp/hurt contact rule, the win check at
//! the checkpoint flag, and the pause/win menu state.  One `update` is
//! one simulated frame; drawing and the menu buttons live outside and
//! read this state.

use vstd::prelude::*;

verus! {

use crate::enemy::{enemy_in_range, enemy_stepped, lemma_enemy_step_fn, Enemy};
use crate::level::{Character, Level, Marker};
use crate::physics::{grid_in_range, Vec2Fx, DT_MAX};
use crate::player::{lemma_player_step_fn, player_in_range, player_stepped, Player, PlayerInput};

/// A downed enemy's death animation runs this long (half a second).
pub const ENEMY_DEATH_TICKS: i64 = 32768;

/// The upward velocity a stomp gives the player, in subpixels a second.
pub const STOMP_BOUNCE_SUB: i64 = 55296;

/// Player-to-enemy contact distance, squared, in subpixels (200 square
/// pixels).
pub const CONTACT_DIST2_SUB: i64 = 13107200;

/// Player-to-flag win distance, squared, in subpixels (140 square
/// pixels).
pub const VICTORY_DIST2_SUB: i64 = 9175040;

/// The player probe for the win check sits four pixels left of the body.
pub const VICTORY_OFFSET_SUB: i64 = 1024;

/// Marker coordinates the runtime accepts (so pixel-to-subpixel
/// conversion stays in range).
pub const MARKER_COORD_LIMIT: i64 = 0x8000_0000;

/// What the runtime shows over the game.
#[derive(Clone, Copy, PartialEq, Eq, Structural, Debug)]
pub enum RuntimeMenu {
    Hidden,
    Paused,
    Win,
}

impl RuntimeMenu {
    /// The pause key: hides the pause menu or shows it; the win menu
    /// stays.
    pub fn toggle(&mut self)
        ensures
            *final(self) == (match *old(self) {
                RuntimeMenu::Paused => RuntimeMenu::Hidden,
                RuntimeMenu::Hidden => RuntimeMenu::Paused,
                RuntimeMenu::Win => RuntimeMenu::Win,
            }),
    {
        match *self {
            RuntimeMenu::Paused => {
                *self = RuntimeMenu::Hidden;
            },
            RuntimeMenu::Hidden => {
                *self = RuntimeMenu::Paused;
            },
            RuntimeMenu::Win => {},
        }
    }
}

/// What the outer loop does with the session after a frame.
#[derive(Clone, Copy, PartialEq, Eq, Structural, Debug)]
pub enum RuntimeResult {
    Continue,
    Win,
    Exit,
}

/// A running level.
#[derive(Clone, Debug)]
pub struct GoblinRuntime {
    pub player: Player,
    pub level: Level,
    pub enemies: Vec<Enemy>,
    pub menu: RuntimeMenu,
    pub victory_ticks: i64,
    pub died: bool,
}

/// Agreement on every player field except the vertical velocity, which
/// a stomp overwrites mid-pass.
pub open spec fn same_but_vy(p: Player, q: Player) -> bool {
    &&& p.pos == q.pos
    &&& p.camera_pos == q.camera_pos
    &&& p.velocity.x == q.velocity.x
    &&& p.move_x == q.move_x
    &&& p.crouching == q.crouching
    &&& p.time == q.time
    &&& p.grounded == q.grounded
    &&& p.jump_ticks == q.jump_ticks
    &&& p.moving == q.moving
}

/// Squared distance between two points.
pub open spec fn dist2_spec(ax: int, ay: int, bx: int, by: int) -> int {
    (ax - bx) * (ax - bx) + (ay - by) * (ay - by)
}

/// Whether two points lie within a squared distance, computed without
/// ever squaring a large difference: any axis gap of a full collision
/// chunk (16 pixels) already exceeds every limit the runtime uses.
fn within_dist2(ax: i64, ay: i64, bx: i64, by: i64, limit: i64) -> (r: bool)
    requires
        -0x200_0000_0000 <= ax <= 0x200_0000_0000,
        -0x200_0000_0000 <= ay <= 0x200_0000_0000,
        -0x200_0000_0000 <= bx <= 0x200_0000_0000,
        -0x200_0000_0000 <= by <= 0x200_0000_0000,
        0 < limit <= 0x100_0000,
    ensures
        r == (dist2_spec(ax as int, ay as int, bx as int, by as int) < limit),
{
    let dx = ax - bx;
    let dy = ay - by;
    if dx >= 4096 || dx <= -4096 || dy >= 4096 || dy <= -4096 {
        proof {
            assert(dx as int * dx as int >= 0x100_0000 && dy as int * dy as int >= 0 || dy as int
                * dy as int >= 0x100_0000 && dx as int * dx as int >= 0) by (nonlinear_arith)
                requires
                    dx >= 4096 || dx <= -4096 || dy >= 4096 || dy <= -4096,
            ;
        }
        false
    } else {
        proof {
            assert(-0x100_0000 <= dx as int * dx as int <= 0x100_0000 && -0x100_0000 <= dy as int
                * dy as int <= 0x100_0000) by (nonlinear_arith)
                requires
                    -4096 < dx < 4096,
                    -4096 < dy < 4096,
            ;
        }
        dx * dx + dy * dy < limit
    }
}

/// One enemy's share of a frame: a downed enemy only runs out its death
/// animation; a live one takes a patrol step and then meets the player —
/// close above, it is stomped and the player bounces; close otherwise,
/// the player dies.  The enemy stays unless its death animation is over.
pub open spec fn enemy_frame_spec(
    level: Level,
    dt: int,
    ppos: Vec2Fx,
    victory_zero: bool,
    died: bool,
    vy: int,
    e: Enemy,
) -> (Option<Enemy>, int, bool) {
    if e.death_ticks > 0 {
        let d2 = e.death_ticks + dt;
        (
            if d2 < ENEMY_DEATH_TICKS {
                Option::Some(Enemy { death_ticks: d2 as i64, ..e })
            } else {
                Option::None
            },
            vy,
            died,
        )
    } else {
        let e1 = enemy_stepped(e, dt, level);
        if !died && victory_zero && dist2_spec(
            ppos.x as int,
            ppos.y as int,
            e1.pos.x as int,
            e1.pos.y as int,
        ) < CONTACT_DIST2_SUB {
            if ppos.y < e1.pos.y {
                (
                    if dt < ENEMY_DEATH_TICKS {
                        Option::Some(Enemy { death_ticks: dt as i64, ..e1 })
                    } else {
                        Option::None
                    },
                    -STOMP_BOUNCE_SUB as int,
                    died,
                )
            } else {
                (Option::Some(e1), vy, true)
            }
        } else {
            (Option::Some(e1), vy, died)
        }
    }
}

/// The whole enemy pass, front to back, threading the player's vertical
/// velocity and death through: the retained enemies in order, then the
/// final velocity and death flag.
pub open spec fn runtime_pass_spec(
    level: Level,
    dt: int,
    ppos: Vec2Fx,
    victory_zero: bool,
    es: Seq<Enemy>,
    vy: int,
    died: bool,
) -> (Seq<Enemy>, int, bool)
    decreases es.len(),
{
    if es.len() == 0 {
        (Seq::empty(), vy, died)
    } else {
        let (kept, vy1, died1) = enemy_frame_spec(level, dt, ppos, victory_zero, died, vy, es[0]);
        let (rest, vy2, died2) = runtime_pass_spec(
            level,
            dt,
            ppos,
            victory_zero,
            es.subrange(1, es.len() as int),
            vy1,
            died1,
        );
        (
            match kept {
                Option::Some(k) => seq![k] + rest,
                Option::None => rest,
            },
            vy2,
            died2,
        )
    }
}

/// One enemy's share of a frame, executably: returns the retained
/// enemy (if any), the player's vertical velocity and the death flag
/// after this enemy.
fn enemy_frame(
    level: &Level,
    e: Enemy,
    delta_time: i64,
    ppos: Vec2Fx,
    victory_zero: bool,
    vy: i64,
    died: bool,
) -> (r: (Option<Enemy>, i64, bool))
    requires
        grid_in_range(*level),
        enemy_in_range(e),
        0 <= e.death_ticks < ENEMY_DEATH_TICKS,
        0 < delta_time <= DT_MAX,
        -0x200_0000_0000 <= ppos.x <= 0x200_0000_0000,
        -0x200_0000_0000 <= ppos.y <= 0x200_0000_0000,
    ensures
        ({
            let (kept, vy1, died1) = enemy_frame_spec(
                *level,
                delta_time as int,
                ppos,
                victory_zero,
                died,
                vy as int,
                e,
            );
            &&& r.0 == kept
            &&& r.1 as int == vy1
            &&& r.2 == died1
        }),
{
    if e.death_ticks > 0 {
        let d2 = e.death_ticks + delta_time;
        if d2 < ENEMY_DEATH_TICKS {
            (Some(Enemy { death_ticks: d2, ..e }), vy, died)
        } else {
            (None, vy, died)
        }
    } else {
        let mut e1 = e;
        e1.update(delta_time, level);
        proof {
            lemma_enemy_step_fn(e, e1, delta_time as int, *level);
        }
        let close = within_dist2(ppos.x, ppos.y, e1.pos.x, e1.pos.y, CONTACT_DIST2_SUB);
        if !died && victory_zero && close {
            if ppos.y < e1.pos.y {
                (Some(Enemy { death_ticks: delta_time, ..e1 }), -STOMP_BOUNCE_SUB, died)
            } else {
                (Some(e1), vy, true)
            }
        } else {
            (Some(e1), vy, died)
        }
    }
}

/// The live enemies a level's markers spawn, in marker order: one per
/// wander-enemy marker, eight pixels below it, walking left.
pub open spec fn spawned_enemy(m: Marker, animation: usize) -> Enemy {
    Enemy {
        pos: Vec2Fx { x: (m.x * 256) as i64, y: ((m.y + 8) * 256) as i64 },
        animation,
        time: 0,
        moving_left: true,
        velocity: Vec2Fx { x: 0, y: 0 },
        death_ticks: 0,
    }
}

pub open spec fn enemies_of(chars: Seq<Marker>) -> Seq<Enemy>
    decreases chars.len(),
{
    if chars.len() == 0 {
        Seq::empty()
    } else {
        let front = enemies_of(chars.drop_last());
        match chars.last().kind {
            Character::WanderEnemy(a) => front.push(spawned_enemy(chars.last(), a)),
            _ => front,
        }
    }
}

/// Marker coordinates small enough for subpixel conversion.
pub open spec fn markers_in_range(level: Level) -> bool {
    forall|i: int|
        0 <= i < level.characters@.len() ==> -MARKER_COORD_LIMIT < (
        #[trigger] level.characters@[i]).x < MARKER_COORD_LIMIT && -MARKER_COORD_LIMIT
            < level.characters@[i].y < MARKER_COORD_LIMIT
}

impl GoblinRuntime {
    /// Starts a session on a level: the player spawns at marker 0's
    /// center-bottom, one enemy per wander marker, menu hidden.
    pub fn new(level: Level) -> (r: GoblinRuntime)
        requires
            level.wf(),
            markers_in_range(level),
        ensures
            r.level == level,
            r.player == Player::new_spec(
                Vec2Fx {
                    x: ((level.characters@[0].x + 4) * 256) as i64,
                    y: ((level.characters@[0].y + 8) * 256) as i64,
                },
            ),
            r.enemies@ == enemies_of(level.characters@),
            r.menu == RuntimeMenu::Hidden,
            r.victory_ticks == 0,
            !r.died,
    {
        let spawn = level.characters[0];
        let player = Player::new(
            Vec2Fx { x: (spawn.x + 4) * 256, y: (spawn.y + 8) * 256 },
        );
        let n = level.characters.len();
        let mut enemies: Vec<Enemy> = Vec::new();
        let mut i: usize = 0;
        proof {
            assert(level.characters@.subrange(0, 0) =~= Seq::<Marker>::empty());
        }
        while i < n
            invariant
                n == level.characters@.len(),
                i <= n,
                markers_in_range(level),
                enemies@ == enemies_of(level.characters@.subrange(0, i as int)),
            decreases n - i,
        {
            let m = level.characters[i];
            proof {
                assert(level.characters@.subrange(0, i as int + 1).drop_last()
                    =~= level.characters@.subrange(0, i as int));
                assert(level.characters@.subrange(0, i as int + 1).last()
                    == level.characters@[i as int]);
            }
            match m.kind {
                Character::WanderEnemy(a) => {
                    enemies.push(
                        Enemy {
                            pos: Vec2Fx { x: m.x * 256, y: (m.y + 8) * 256 },
                            animation: a,
                            time: 0,
                            moving_left: true,
                            velocity: Vec2Fx { x: 0, y: 0 },
                            death_ticks: 0,
                        },
                    );
                },
                _ => {},
            }
            i = i + 1;
        }
        proof {
            assert(level.characters@.subrange(0, n as int) =~= level.characters@);
        }
        GoblinRuntime {
            player,
            level,
            enemies,
            menu: RuntimeMenu::Hidden,
            victory_ticks: 0,
            died: false,
        }
    }

    /// The enemy half of a frame: each enemy in order runs its share,
    /// the player's vertical velocity and the death flag threading
    /// through.
    fn enemies_pass(&mut self, delta_time: i64)
        requires
            grid_in_range(old(self).level),
            0 < delta_time <= DT_MAX,
            forall|i: int|
                0 <= i < old(self).enemies@.len() ==> enemy_in_range(
                    #[trigger] old(self).enemies@[i],
                ) && 0 <= old(self).enemies@[i].death_ticks < ENEMY_DEATH_TICKS,
            -0x200_0000_0000 <= old(self).player.pos.x <= 0x200_0000_0000,
            -0x200_0000_0000 <= old(self).player.pos.y <= 0x200_0000_0000,
        ensures
            ({
                let (es1, vy1, died1) = runtime_pass_spec(
                    old(self).level,
                    delta_time as int,
                    old(self).player.pos,
                    old(self).victory_ticks == 0,
                    old(self).enemies@,
                    old(self).player.velocity.y as int,
                    old(self).died,
                );
                &&& final(self).enemies@ == es1
                &&& final(self).player.velocity.y == vy1
                &&& same_but_vy(final(self).player, old(self).player)
                &&& final(self).died == died1
                &&& final(self).level == old(self).level
                &&& final(self).menu == old(self).menu
                &&& final(self).victory_ticks == old(self).victory_ticks
            }),
    {
        let ghost level0 = self.level;
        let ghost p_mid = self.player;
        let ghost es0 = self.enemies@;
        let ghost vy_init = self.player.velocity.y;
        let ghost died_init = self.died;
        let victory_zero = self.victory_ticks == 0;
        let ppos = self.player.pos;

        let n = self.enemies.len();
        let mut kept: Vec<Enemy> = Vec::new();
        let mut i: usize = 0;
        proof {
            assert(es0.subrange(0, n as int) =~= es0);
            assert(kept@ + runtime_pass_spec(
                level0,
                delta_time as int,
                ppos,
                victory_zero,
                es0.subrange(0, n as int),
                vy_init as int,
                died_init,
            ).0 =~= runtime_pass_spec(
                level0,
                delta_time as int,
                ppos,
                victory_zero,
                es0,
                vy_init as int,
                died_init,
            ).0);
        }
        while i < n
            invariant
                n == es0.len(),
                i <= n,
                grid_in_range(level0),
                self.level == level0,
                self.player.pos == ppos,
                same_but_vy(self.player, p_mid),
                0 < delta_time <= DT_MAX,
                forall|j: int|
                    0 <= j < es0.len() ==> enemy_in_range(#[trigger] es0[j]) && 0 <= es0[j].death_ticks
                        < ENEMY_DEATH_TICKS,
                self.enemies@ == es0,
                self.menu == old(self).menu,
                self.victory_ticks == old(self).victory_ticks,
                -0x200_0000_0000 <= ppos.x <= 0x200_0000_0000,
                -0x200_0000_0000 <= ppos.y <= 0x200_0000_0000,
                ({
                    let full = runtime_pass_spec(
                        level0,
                        delta_time as int,
                        ppos,
                        victory_zero,
                        es0,
                        vy_init as int,
                        died_init,
                    );
                    let rest = runtime_pass_spec(
                        level0,
                        delta_time as int,
                        ppos,
                        victory_zero,
                        es0.subrange(i as int, n as int),
                        self.player.velocity.y as int,
                        self.died,
                    );
                    &&& full.0 == kept@ + rest.0
                    &&& full.1 == rest.1
                    &&& full.2 == rest.2
                }),
            decreases n - i,
        {
            let ghost rest_pre = es0.subrange(i as int, n as int);
            proof {
                assert(rest_pre[0] == es0[i as int]);
                assert(rest_pre.subrange(1, rest_pre.len() as int) =~= es0.subrange(
                    i as int + 1,
                    n as int,
                ));
            }
            let e = self.enemies[i];
            let (kept_e, vy2, died2) = enemy_frame(
                &self.level,
                e,
                delta_time,
                ppos,
                victory_zero,
                self.player.velocity.y,
                self.died,
            );
            self.player.velocity.y = vy2;
            self.died = died2;
            proof {
                let rest1 = runtime_pass_spec(
                    level0,
                    delta_time as int,
                    ppos,
                    victory_zero,
                    es0.subrange(i as int + 1, n as int),
                    vy2 as int,
                    died2,
                );
                if let Option::Some(k) = kept_e {
                    assert(kept@.push(k) + rest1.0 =~= kept@ + (seq![k] + rest1.0));
                }
            }
            if let Some(k) = kept_e {
                kept.push(k);
            }
            i = i + 1;
        }
        proof {
            assert(es0.subrange(n as int, n as int) =~= Seq::<Enemy>::empty());
            let full = runtime_pass_spec(
                level0,
                delta_time as int,
                ppos,
                victory_zero,
                es0,
                vy_init as int,
                died_init,
            );
            assert(full.0 =~= kept@ + Seq::<Enemy>::empty());
            assert(full.0 =~= kept@);
        }
        self.enemies = kept;
    }

    /// One simulated frame: the player steps, each enemy runs its share
    /// of the frame in order, and if the player ends the frame alive,
    /// not yet winning, and close to the flag marker, the win starts.
    pub fn update(&mut self, input: PlayerInput, delta_time: i64)
        requires
            grid_in_range(old(self).level),
            old(self).level.wf(),
            old(self).level.characters@.len() >= 2,
            markers_in_range(old(self).level),
            player_in_range(old(self).player),
            -1 <= input.axis_x <= 1,
            0 < delta_time <= DT_MAX,
            forall|i: int|
                0 <= i < old(self).enemies@.len() ==> enemy_in_range(
                    #[trigger] old(self).enemies@[i],
                ) && 0 <= old(self).enemies@[i].death_ticks < ENEMY_DEATH_TICKS,
            0 <= old(self).victory_ticks,
        ensures
            ({
                let p_mid = player_stepped(
                    old(self).player,
                    input,
                    delta_time as int,
                    old(self).level,
                );
                let (es1, vy1, died1) = runtime_pass_spec(
                    old(self).level,
                    delta_time as int,
                    p_mid.pos,
                    old(self).victory_ticks == 0,
                    old(self).enemies@,
                    p_mid.velocity.y as int,
                    old(self).died,
                );
                let flag = old(self).level.characters@[1];
                let won = old(self).victory_ticks == 0 && !died1 && dist2_spec(
                    p_mid.pos.x - VICTORY_OFFSET_SUB,
                    p_mid.pos.y as int,
                    flag.x * 256,
                    flag.y * 256,
                ) < VICTORY_DIST2_SUB;
                &&& same_but_vy(final(self).player, p_mid)
                &&& final(self).player.velocity.y == vy1
                &&& final(self).enemies@ == es1
                &&& final(self).died == died1
                &&& final(self).victory_ticks == if won {
                    delta_time as int
                } else {
                    old(self).victory_ticks as int
                }
                &&& final(self).menu == if won {
                    RuntimeMenu::Win
                } else {
                    old(self).menu
                }
                &&& final(self).level == old(self).level
            }),
    {
        let ghost level0 = self.level;
        let ghost p0 = self.player;
        self.player.update(input, delta_time, &self.level);
        proof {
            lemma_player_step_fn(p0, self.player, input, delta_time as int, level0);
        }
        let ghost p_mid = self.player;
        let victory_zero = self.victory_ticks == 0;
        let ppos = self.player.pos;
        self.enemies_pass(delta_time);

        let flag = self.level.characters[1];
        let won = victory_zero && !self.died && within_dist2(
            ppos.x - VICTORY_OFFSET_SUB,
            ppos.y,
            flag.x * 256,
            flag.y * 256,
            VICTORY_DIST2_SUB,
        );
        if won {
            self.victory_ticks = delta_time;
            self.menu = RuntimeMenu::Win;
        }
    }
}

} // verus!
