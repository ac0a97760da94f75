use goblin_maker::flood::get_connected_tiles;
use goblin_maker::level::{Level, Tile};
use goblin_maker::maker::bucket_fill;

/// A 7x7 grid whose border is solid terrain, leaving a fully enclosed
/// 5x5 empty region.
fn enclosed_level() -> Level {
    let mut level = Level::new_empty(7, 7);
    for i in 0..7 {
        level.set_tile(i, 0, Tile { terrain: 1, decoration: 0 });
        level.set_tile(i, 6, Tile { terrain: 1, decoration: 0 });
        level.set_tile(0, i, Tile { terrain: 1, decoration: 0 });
        level.set_tile(6, i, Tile { terrain: 1, decoration: 0 });
    }
    level
}

#[test]
fn enclosed_region_visits_each_cell_exactly_once() {
    let level = enclosed_level();
    let mut cells = get_connected_tiles(&level, 3, 3);
    assert_eq!(cells[0], (3, 3));
    assert_eq!(cells.len(), 25);
    cells.sort();
    cells.dedup();
    assert_eq!(cells.len(), 25);
    for &(x, y) in cells.iter() {
        assert!((1..=5).contains(&x) && (1..=5).contains(&y));
    }
}

#[test]
fn bucket_changes_exactly_the_enclosed_region() {
    let mut level = enclosed_level();
    let before = level.clone();
    bucket_fill(&mut level, 3, 3, 0, 4);
    let mut changed = 0;
    for x in 0..7 {
        for y in 0..7 {
            if level.get_tile(x, y) != before.get_tile(x, y) {
                changed += 1;
                assert!((1..=5).contains(&x) && (1..=5).contains(&y));
                assert_eq!(level.get_tile(x, y), Tile { terrain: 4, decoration: 0 });
            }
        }
    }
    assert_eq!(changed, 25);
}

#[test]
fn walls_split_regions() {
    let mut level = Level::new_empty(5, 1);
    level.set_tile(2, 0, Tile { terrain: 1, decoration: 0 });
    let mut cells = get_connected_tiles(&level, 0, 0);
    cells.sort();
    assert_eq!(cells, vec![(0, 0), (1, 0)]);
}

#[test]
fn decoration_does_not_block_the_bucket() {
    let mut level = Level::new_empty(3, 1);
    level.set_tile(1, 0, Tile { terrain: 0, decoration: 9 });
    let cells = get_connected_tiles(&level, 0, 0);
    assert_eq!(cells.len(), 3);
}

#[test]
fn seed_is_listed_even_when_occupied() {
    let mut level = Level::new_empty(3, 3);
    level.set_tile(1, 1, Tile { terrain: 1, decoration: 0 });
    let cells = get_connected_tiles(&level, 1, 1);
    // an occupied seed has no empty neighbors joined through it... except
    // its own adjacent empty cells, which connect directly to the seed
    assert_eq!(cells[0], (1, 1));
    assert_eq!(cells.len(), 9);
}
