use goblin_maker::level::{Character, Level, Marker, Tile};
use goblin_maker::player::PlayerInput;
use goblin_maker::runtime::{GoblinRuntime, RuntimeMenu};

/// A level with a floor, a spawn marker, a flag marker and one enemy
/// marker.
fn runtime_level(flag_x: i64, flag_y: i64) -> Level {
    let mut level = Level::new_empty(20, 10);
    for x in 0..20 {
        level.set_tile(x, 9, Tile { terrain: 1, decoration: 0 });
    }
    level.characters[0] = Marker { x: 36, y: 48, kind: Character::PlayerSpawn, atlas_index: 0 };
    level.characters.push(Marker { x: flag_x, y: flag_y, kind: Character::Checkpoint, atlas_index: 1 });
    level.characters.push(Marker { x: 200, y: 48, kind: Character::WanderEnemy(1), atlas_index: 3 });
    level
}

#[test]
fn sessions_spawn_from_the_markers() {
    let rt = GoblinRuntime::new(runtime_level(300, 48));
    // player at spawn + (4, 8) pixels, in subpixels
    assert_eq!(rt.player.pos.x, 40 * 256);
    assert_eq!(rt.player.pos.y, 56 * 256);
    assert_eq!(rt.enemies.len(), 1);
    assert_eq!(rt.enemies[0].pos.x, 200 * 256);
    assert_eq!(rt.enemies[0].pos.y, 56 * 256);
    assert_eq!(rt.enemies[0].animation, 1);
    assert!(rt.enemies[0].moving_left);
    assert_eq!(rt.menu, RuntimeMenu::Hidden);
    assert!(!rt.died);
}

#[test]
fn reaching_the_flag_wins() {
    // the flag sits right at the player: the win check fires on frame one
    let mut rt = GoblinRuntime::new(runtime_level(36, 48));
    rt.update(PlayerInput { axis_x: 0, jump_held: false }, 1092);
    assert_eq!(rt.menu, RuntimeMenu::Win);
    assert_eq!(rt.victory_ticks, 1092);
    // a later frame does not restart the win
    rt.update(PlayerInput { axis_x: 0, jump_held: false }, 1092);
    assert_eq!(rt.victory_ticks, 1092);
}

#[test]
fn a_distant_flag_does_not_win() {
    let mut rt = GoblinRuntime::new(runtime_level(300, 48));
    rt.update(PlayerInput { axis_x: 0, jump_held: false }, 1092);
    assert_eq!(rt.menu, RuntimeMenu::Hidden);
    assert_eq!(rt.victory_ticks, 0);
    assert!(!rt.died);
    assert_eq!(rt.enemies.len(), 1);
}

#[test]
fn stomping_an_enemy_bounces_the_player() {
    // spawn the player just above the enemy: marker + (4,8) = (200,44) px
    let mut level = Level::new_empty(40, 10);
    level.characters[0] = Marker { x: 196, y: 36, kind: Character::PlayerSpawn, atlas_index: 0 };
    level.characters.push(Marker { x: 600, y: 48, kind: Character::Checkpoint, atlas_index: 1 });
    level.characters.push(Marker { x: 200, y: 48, kind: Character::WanderEnemy(0), atlas_index: 3 });
    let mut rt = GoblinRuntime::new(level);
    rt.update(PlayerInput { axis_x: 0, jump_held: false }, 1092);
    assert!(!rt.died);
    assert_eq!(rt.enemies.len(), 1);
    assert_eq!(rt.enemies[0].death_ticks, 1092);
    // the stomp replaces the player's vertical velocity with the bounce
    assert_eq!(rt.player.velocity.y, -216 * 256);
}

#[test]
fn level_contact_kills_the_player() {
    // player and enemy at the same height and nearly the same spot
    let mut level = Level::new_empty(40, 10);
    level.characters[0] = Marker { x: 196, y: 48, kind: Character::PlayerSpawn, atlas_index: 0 };
    level.characters.push(Marker { x: 600, y: 48, kind: Character::Checkpoint, atlas_index: 1 });
    level.characters.push(Marker { x: 200, y: 48, kind: Character::WanderEnemy(0), atlas_index: 3 });
    let mut rt = GoblinRuntime::new(level);
    rt.update(PlayerInput { axis_x: 0, jump_held: false }, 1092);
    assert!(rt.died);
    assert_eq!(rt.enemies.len(), 1);
    assert_eq!(rt.enemies[0].death_ticks, 0);
}

#[test]
fn the_pause_menu_toggles_and_the_win_menu_stays() {
    let mut menu = RuntimeMenu::Hidden;
    menu.toggle();
    assert_eq!(menu, RuntimeMenu::Paused);
    menu.toggle();
    assert_eq!(menu, RuntimeMenu::Hidden);
    let mut won = RuntimeMenu::Win;
    won.toggle();
    assert_eq!(won, RuntimeMenu::Win);
}
