use goblin_maker::level::{Character, Level, Tile};

#[test]
fn out_of_bounds_reads_empty() {
    let level = Level::new_empty(10, 5);
    // every coordinate outside [0,10) x [0,5) reads as the empty bundle
    assert_eq!(level.get_tile(10, 0), Tile { terrain: 0, decoration: 0 });
    assert_eq!(level.get_tile(0, 5), Tile { terrain: 0, decoration: 0 });
    assert_eq!(level.get_tile(usize::MAX, usize::MAX), Tile { terrain: 0, decoration: 0 });
    assert_eq!(level.get_tile(11, 2), Tile { terrain: 0, decoration: 0 });
}

#[test]
fn length_stays_width_times_height_after_set_tile() {
    let mut level = Level::new_empty(10, 5);
    assert_eq!(level.tiles.len(), 10 * 5);
    for x in 0..10 {
        for y in 0..5 {
            level.set_tile(x, y, Tile { terrain: 2, decoration: 1 });
            assert_eq!(level.tiles.len(), 10 * level.height());
            assert_eq!(level.height(), 5);
        }
    }
}

#[test]
fn single_tile_scenario() {
    // grid width=10, height=5, all empty; place terrain index 1 at (5,2)
    let mut level = Level::new_empty(10, 5);
    level.set_tile(5, 2, Tile { terrain: 1, decoration: 0 });
    assert_eq!(level.get_tile(5, 2), Tile { terrain: 1, decoration: 0 });
    assert_eq!(level.get_tile(5, 3), Tile { terrain: 0, decoration: 0 });
    assert_eq!(level.get_tile(11, 2), Tile { terrain: 0, decoration: 0 });
}

#[test]
fn new_empty_has_player_spawn_first() {
    let level = Level::new_empty(100, 50);
    assert_eq!(level.characters.len(), 1);
    assert_eq!(level.characters[0].kind, Character::PlayerSpawn);
    assert_eq!(level.characters[0].x, 100 * 8 + 4);
    assert_eq!(level.characters[0].y, 50 * 8 + 8);
}

#[test]
fn set_tile_leaves_other_cells_alone() {
    let mut level = Level::new_empty(4, 4);
    level.set_tile(1, 1, Tile { terrain: 3, decoration: 0 });
    level.set_tile(2, 2, Tile { terrain: 0, decoration: 5 });
    for x in 0..4 {
        for y in 0..4 {
            let expected = if (x, y) == (1, 1) {
                Tile { terrain: 3, decoration: 0 }
            } else if (x, y) == (2, 2) {
                Tile { terrain: 0, decoration: 5 }
            } else {
                Tile { terrain: 0, decoration: 0 }
            };
            assert_eq!(level.get_tile(x, y), expected);
        }
    }
}
