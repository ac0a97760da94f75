use goblin_maker::fixed::{away_div, ceil_div, floor_div, trunc_div};
use goblin_maker::level::{Level, Tile};
use goblin_maker::physics::{update_physicsbody, Vec2Fx};

/// 10x5 tiles with a solid floor along the bottom row (tile row 4,
/// pixels 64..80).
fn floor_level() -> Level {
    let mut level = Level::new_empty(10, 5);
    for x in 0..10 {
        level.set_tile(x, 4, Tile { terrain: 1, decoration: 0 });
    }
    level
}

#[test]
fn directional_rounding() {
    // floor: toward negative infinity; ceil: toward positive infinity;
    // trunc: toward zero; away: away from zero
    assert_eq!(floor_div(7, 2), 3);
    assert_eq!(floor_div(-7, 2), -4);
    assert_eq!(ceil_div(7, 2), 4);
    assert_eq!(ceil_div(-7, 2), -3);
    assert_eq!(trunc_div(7, 2), 3);
    assert_eq!(trunc_div(-7, 2), -3);
    assert_eq!(away_div(7, 2), 4);
    assert_eq!(away_div(-7, 2), -4);
    assert_eq!(floor_div(8, 2), 4);
    assert_eq!(away_div(-8, 2), -4);
}

#[test]
fn falling_body_lands_and_grounds() {
    let level = floor_level();
    // feet at 55 px, falling fast enough to cross into the floor's cell
    let pos = Vec2Fx { x: 40 * 256, y: 55 * 256 };
    let mut velocity = Vec2Fx { x: 0, y: 200 * 256 };
    let (new_pos, grounded) = update_physicsbody(pos, &mut velocity, 1092, &level, true);
    assert!(grounded);
    // snapped to the cell boundary below the starting cell: ceil(55/8)*8 = 56
    assert_eq!(new_pos.y, 56 * 256);
    assert_eq!(new_pos.x, 40 * 256);
    assert_eq!(velocity.y, 0);
}

#[test]
fn grounded_body_at_rest_stays_put() {
    let level = floor_level();
    // resting exactly on the floor: feet cell boundary at 56 px
    let pos = Vec2Fx { x: 40 * 256, y: 56 * 256 };
    // one frame of gravity as the player applies it
    let mut velocity = Vec2Fx { x: 0, y: 5374 };
    let (new_pos, grounded) = update_physicsbody(pos, &mut velocity, 1092, &level, true);
    assert!(grounded);
    assert_eq!(new_pos, pos);
    assert_eq!(velocity, Vec2Fx { x: 0, y: 0 });
}

#[test]
fn horizontal_hit_zeroes_velocity_and_clamps_to_edge() {
    let mut level = Level::new_empty(10, 5);
    // a wall at tile (5,3): pixels x in 80..96, y in 48..64
    level.set_tile(5, 3, Tile { terrain: 1, decoration: 0 });
    // body at x=72 px moving right; at y=56 its cells are rows 6..7
    let pos = Vec2Fx { x: 72 * 256, y: 56 * 256 };
    let mut velocity = Vec2Fx { x: 48640, y: 0 };
    let (new_pos, grounded) = update_physicsbody(pos, &mut velocity, 1092, &level, true);
    assert!(!grounded);
    assert_eq!(velocity.x, 0);
    // clamped to the boundary of the cells it came from, no penetration
    assert_eq!(new_pos.x, 72 * 256);
    assert_eq!(new_pos.y, 56 * 256);
}

#[test]
fn free_fall_moves_by_velocity_times_time() {
    let level = Level::new_empty(10, 5);
    let pos = Vec2Fx { x: 10 * 256, y: 10 * 256 };
    let mut velocity = Vec2Fx { x: 8192, y: 4096 };
    let (new_pos, grounded) = update_physicsbody(pos, &mut velocity, 1092, &level, true);
    assert!(!grounded);
    // displacement = floor(v * dt / 65536)
    assert_eq!(new_pos.x, 10 * 256 + (8192 * 1092) / 65536);
    assert_eq!(new_pos.y, 10 * 256 + (4096 * 1092) / 65536);
    assert_eq!(velocity, Vec2Fx { x: 8192, y: 4096 });
}
