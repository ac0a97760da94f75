use goblin_maker::level::{Level, Tile};
use goblin_maker::physics::Vec2Fx;
use goblin_maker::player::{Player, PlayerInput, JUMP_IMPULSE_SUB, MAX_VELOCITY_SUB};

fn floor_level() -> Level {
    let mut level = Level::new_empty(10, 5);
    for x in 0..10 {
        level.set_tile(x, 4, Tile { terrain: 1, decoration: 0 });
    }
    level
}

#[test]
fn resting_player_stays_in_place() {
    let level = floor_level();
    let mut player = Player::new(Vec2Fx { x: 40 * 256, y: 56 * 256 });
    let before = player.pos;
    player.update(PlayerInput { axis_x: 0, jump_held: false }, 1092, &level);
    assert_eq!(player.pos, before);
    assert!(player.grounded);
    assert_eq!(player.velocity, Vec2Fx { x: 0, y: 0 });
    player.update(PlayerInput { axis_x: 0, jump_held: false }, 1092, &level);
    assert_eq!(player.pos, before);
    assert!(player.grounded);
}

#[test]
fn jump_press_applies_the_full_impulse() {
    let level = floor_level();
    let mut player = Player::new(Vec2Fx { x: 40 * 256, y: 56 * 256 });
    player.update(PlayerInput { axis_x: 0, jump_held: true }, 1092, &level);
    // gravity added floor(322560*1092/65536) = 5374, the press removed
    // the full impulse: 5374 - 55296
    assert_eq!(player.velocity.y, -49922);
    // the body moved up by floor(-49922*1092/65536) = -832 subpixels
    assert_eq!(player.pos.y, 56 * 256 - 832);
    assert!(!player.grounded);
    assert_eq!(player.jump_ticks, 1092);
}

#[test]
fn input_accelerates_and_velocity_is_capped() {
    let level = floor_level();
    let mut player = Player::new(Vec2Fx { x: 40 * 256, y: 56 * 256 });
    for _ in 0..600 {
        if player.pos.x.abs() > 1 << 39 || player.velocity.y.abs() > 1 << 28 {
            break;
        }
        player.update(PlayerInput { axis_x: 1, jump_held: false }, 1092, &level);
    }
    assert!(player.velocity.x > 0);
    assert!(player.velocity.x <= MAX_VELOCITY_SUB);
    assert!(player.moving);
    assert_eq!(player.move_x, 1);
}

#[test]
fn counter_steer_zeroes_opposing_velocity() {
    let level = floor_level();
    let mut player = Player::new(Vec2Fx { x: 40 * 256, y: 56 * 256 });
    player.velocity.x = 10000;
    player.update(PlayerInput { axis_x: -1, jump_held: false }, 1092, &level);
    // moving right faster than one pixel a second against a left input:
    // the old velocity is dropped outright, then the input accelerates left
    assert!(player.velocity.x <= 0);
}

#[test]
fn jump_impulse_constant_matches_the_rules() {
    // 3.6 * 60 pixels a second, in subpixels
    assert_eq!(JUMP_IMPULSE_SUB, 216 * 256);
}
