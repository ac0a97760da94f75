use goblin_maker::autotile::{fixed_atlas, neighbor_key, refresh_cells, scan_atlas_cells, AutotileRules, RulesetError};
use goblin_maker::level::{Level, Tile};

/// A rule image with one 16-pixel cell per neighbor combination: cell x
/// encodes key x in its corner pixel's channels.
fn full_rule_image() -> (usize, usize, usize, Vec<u8>) {
    let tiles_w = 16;
    let tiles_h = 1;
    let img_w = 256;
    let mut rgba = vec![0u8; tiles_h * 16 * img_w * 4];
    for x in 0..16usize {
        let off = x * 16 * 4;
        rgba[off] = if x & 8 != 0 { 255 } else { 0 };
        rgba[off + 1] = if x & 4 != 0 { 255 } else { 0 };
        rgba[off + 2] = if x & 2 != 0 { 255 } else { 0 };
        rgba[off + 3] = if x & 1 != 0 { 255 } else { 128 };
    }
    (tiles_w, tiles_h, img_w, rgba)
}

#[test]
fn complete_ruleset_answers_all_sixteen_combinations() {
    let (tw, th, iw, rgba) = full_rule_image();
    let rules = AutotileRules::from_rule_image(tw, th, iw, &rgba).unwrap();
    assert!(rules.is_complete());
    for k in 0..16u32 {
        let up = k & 8 != 0;
        let left = k & 4 != 0;
        let right = k & 2 != 0;
        let down = k & 1 != 0;
        let cell = rules.lookup(up, left, right, down);
        assert_eq!(cell, Some((k as u32 * 16, 0)));
    }
}

#[test]
fn incomplete_ruleset_is_a_content_error() {
    let (tw, th, iw, mut rgba) = full_rule_image();
    // wipe the cell that registered key 6 (alpha 0 skips the cell)
    rgba[6 * 16 * 4 + 3] = 0;
    let r = AutotileRules::from_rule_image(tw, th, iw, &rgba);
    assert_eq!(r.err(), Some(RulesetError::MissingCombination));
}

#[test]
fn neighbor_key_samples_terrain_only() {
    let mut level = Level::new_empty(5, 5);
    level.set_tile(2, 1, Tile { terrain: 1, decoration: 0 }); // up
    level.set_tile(3, 2, Tile { terrain: 2, decoration: 0 }); // right
    level.set_tile(1, 2, Tile { terrain: 0, decoration: 7 }); // left: decoration only
    level.set_tile(2, 3, Tile { terrain: 0, decoration: 0 }); // down: empty
    assert_eq!(neighbor_key(&level, 2, 2), (true, false, true, false));
}

#[test]
fn neighbor_key_treats_out_of_range_as_unoccupied() {
    let mut level = Level::new_empty(3, 3);
    for x in 0..3 {
        for y in 0..3 {
            level.set_tile(x, y, Tile { terrain: 1, decoration: 0 });
        }
    }
    // the corner cell has no up or left neighbor inside the grid
    assert_eq!(neighbor_key(&level, 0, 0), (false, false, true, true));
    assert_eq!(neighbor_key(&level, 2, 2), (true, true, false, false));
}

#[test]
fn fixed_atlas_formula() {
    // atlas cell = ((index-1) % columns, (index-1) / columns)
    assert_eq!(fixed_atlas(1, 3), (0, 0));
    assert_eq!(fixed_atlas(2, 3), (1, 0));
    assert_eq!(fixed_atlas(4, 3), (0, 1));
    assert_eq!(fixed_atlas(5, 3), (1, 1));
    assert_eq!(fixed_atlas(9, 3), (2, 2));
}

#[test]
fn atlas_scan_stops_at_the_first_blank_cell() {
    let (tiles_w, tiles_h, img_w) = (3usize, 2usize, 48usize);
    let mut rgba = vec![0u8; tiles_h * 16 * img_w * 4];
    // one opaque pixel per populated cell, reading order (0,0)..(0,1),
    // then a blank cell at (1,1) and a stray populated cell after it
    for (cx, cy) in [(0usize, 0usize), (1, 0), (2, 0), (0, 1), (2, 1)] {
        let off = (cy * 16 * img_w + cx * 16) * 4 + 3;
        rgba[off] = 255;
    }
    let cells = scan_atlas_cells(tiles_w, tiles_h, img_w, &rgba);
    assert_eq!(cells, vec![(0, 0), (1, 0), (2, 0), (0, 1)]);
}

#[test]
fn a_fully_populated_atlas_lists_every_cell() {
    let (tiles_w, tiles_h, img_w) = (3usize, 2usize, 48usize);
    let mut rgba = vec![0u8; tiles_h * 16 * img_w * 4];
    for cy in 0..tiles_h {
        for cx in 0..tiles_w {
            rgba[(cy * 16 * img_w + cx * 16) * 4 + 3] = 128;
        }
    }
    let cells = scan_atlas_cells(tiles_w, tiles_h, img_w, &rgba);
    assert_eq!(cells.len(), 6);
    assert_eq!(cells[4], (1, 1));
}

#[test]
fn refresh_touches_target_and_in_bounds_neighbors() {
    let level = Level::new_empty(4, 4);
    let mut cells = refresh_cells(&level, 1, 1);
    cells.sort();
    assert_eq!(cells, vec![(0, 1), (1, 0), (1, 1), (1, 2), (2, 1)]);
    let mut corner = refresh_cells(&level, 0, 0);
    corner.sort();
    assert_eq!(corner, vec![(0, 0), (0, 1), (1, 0)]);
}
