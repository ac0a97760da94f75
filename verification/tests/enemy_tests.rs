use goblin_maker::enemy::Enemy;
use goblin_maker::level::{Level, Tile};
use goblin_maker::physics::Vec2Fx;

#[test]
fn patrol_reverses_exactly_on_a_wall_hit() {
    let mut level = Level::new_empty(10, 5);
    // a floor along tile row 4 and a wall block at tile (4,3)
    for x in 0..10 {
        level.set_tile(x, 4, Tile { terrain: 1, decoration: 0 });
    }
    level.set_tile(4, 3, Tile { terrain: 1, decoration: 0 });
    // walking left from x=88 px, standing on the floor at y=56 px
    let mut enemy = Enemy::new(Vec2Fx { x: 88 * 256, y: 56 * 256 }, 0);
    assert!(enemy.moving_left);
    // first step: still in free space, no reversal
    enemy.update(1092, &level);
    assert!(enemy.moving_left);
    assert!(enemy.velocity.x < 0);
    // keep walking left until the wall is hit; the step that zeroes the
    // horizontal velocity is exactly the step that reverses the patrol
    let mut reversed_step = None;
    for step in 0..200 {
        let before = enemy.moving_left;
        enemy.update(1092, &level);
        if enemy.moving_left != before {
            assert_eq!(enemy.velocity.x, 0);
            reversed_step = Some(step);
            break;
        } else {
            assert!(enemy.velocity.x != 0);
        }
    }
    assert!(reversed_step.is_some());
    assert!(!enemy.moving_left);
}

#[test]
fn free_patrol_keeps_its_direction() {
    let level = Level::new_empty(100, 50);
    let mut enemy = Enemy::new(Vec2Fx { x: 400 * 256, y: 100 * 256 }, 3);
    for _ in 0..20 {
        enemy.update(1092, &level);
        assert!(enemy.moving_left);
    }
    assert_eq!(enemy.animation, 3);
    assert!(enemy.time > 0);
}
