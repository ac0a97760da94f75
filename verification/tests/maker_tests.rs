use goblin_maker::camera::Camera;
use goblin_maker::level::{Character, Level, Tile};
use goblin_maker::maker::{
    classify_input_owner, cursor_tile, erase_characters_at, pick_drag_layer, place_character,
    Dragging, GoblinMaker, Tool,
};

fn maker_on(level: Level) -> GoblinMaker {
    GoblinMaker {
        level,
        camera: Camera { x: 0, y: 0, zoom: 65536 },
        tool: Tool::Pencil,
        dragging: Dragging::Idle,
        selected_tile: Some((0, 0)),
        active_tab: 0,
    }
}

#[test]
fn second_marker_on_occupied_position_is_rejected() {
    let mut level = Level::new_empty(10, 5);
    place_character(&mut level, 2, 1, 1);
    assert_eq!(level.characters.len(), 2);
    assert_eq!(level.characters[1].kind, Character::Checkpoint);
    assert_eq!((level.characters[1].x, level.characters[1].y), (32, 16));
    // an exactly-occupied position rejects the placement outright
    place_character(&mut level, 2, 1, 3);
    assert_eq!(level.characters.len(), 2);
    assert_eq!(level.characters[1].kind, Character::Checkpoint);
}

#[test]
fn player_spawn_replaces_marker_zero() {
    let mut level = Level::new_empty(10, 5);
    let old_len = level.characters.len();
    place_character(&mut level, 4, 2, 0);
    assert_eq!(level.characters.len(), old_len);
    assert_eq!(level.characters[0].kind, Character::PlayerSpawn);
    assert_eq!((level.characters[0].x, level.characters[0].y), (64, 32));
}

#[test]
fn wander_markers_append() {
    let mut level = Level::new_empty(10, 5);
    place_character(&mut level, 1, 1, 4);
    assert_eq!(level.characters.len(), 2);
    assert_eq!(level.characters[1].kind, Character::WanderEnemy(2));
    assert_eq!(level.characters[1].atlas_index, 4);
}

#[test]
fn eraser_keeps_the_player_spawn() {
    let mut level = Level::new_empty(10, 5);
    // move the spawn to (3,3), then add a checkpoint at the same cell
    place_character(&mut level, 3, 3, 0);
    place_character(&mut level, 2, 2, 1);
    place_character(&mut level, 2, 2, 5); // rejected: occupied
    assert_eq!(level.characters.len(), 2);
    erase_characters_at(&mut level, 2, 2);
    assert_eq!(level.characters.len(), 1);
    assert_eq!(level.characters[0].kind, Character::PlayerSpawn);
    // erasing at the spawn's own cell leaves marker 0 alone
    erase_characters_at(&mut level, 3, 3);
    assert_eq!(level.characters.len(), 1);
}

#[test]
fn drag_layer_disambiguation() {
    // both empty or both occupied: the active tab decides
    let empty = Some(Tile { terrain: 0, decoration: 0 });
    let both = Some(Tile { terrain: 2, decoration: 3 });
    let terrain_only = Some(Tile { terrain: 2, decoration: 0 });
    let decoration_only = Some(Tile { terrain: 0, decoration: 3 });
    assert_eq!(pick_drag_layer(empty, 1), 1);
    assert_eq!(pick_drag_layer(both, 0), 0);
    assert_eq!(pick_drag_layer(terrain_only, 1), 0);
    assert_eq!(pick_drag_layer(decoration_only, 0), 1);
    assert_eq!(pick_drag_layer(None, 1), 1);
}

#[test]
fn input_ownership_arbitration() {
    let t = Some(Tile { terrain: 1, decoration: 0 });
    // a click on a UI widget owns the UI even over the canvas
    assert_eq!(classify_input_owner(Dragging::Idle, true, true, true, t, 0), Dragging::UiOwned);
    // a click on the canvas owns the world with the disambiguated layer
    assert_eq!(classify_input_owner(Dragging::Idle, true, true, false, t, 1), Dragging::WorldOwned(0));
    // holding the button keeps the current owner, even over UI
    assert_eq!(
        classify_input_owner(Dragging::WorldOwned(1), true, false, true, t, 0),
        Dragging::WorldOwned(1),
    );
    // releasing the button frees the pointer
    assert_eq!(classify_input_owner(Dragging::UiOwned, false, false, true, t, 0), Dragging::Idle);
}

#[test]
fn cursor_maps_screen_to_tile() {
    let level = Level::new_empty(10, 5);
    let cam = Camera { x: 0, y: 0, zoom: 65536 };
    // 40 px right, 20 px down, zoom one: world (40,20) -> tile (2,1)
    assert_eq!(cursor_tile(&level, &cam, 40 * 256, 20 * 256), Some((2, 1)));
    // outside the grid
    assert_eq!(cursor_tile(&level, &cam, 200 * 256, 20 * 256), None);
    assert_eq!(cursor_tile(&level, &cam, -256, 0), None);
    // panning the camera shifts the mapping
    let cam2 = Camera { x: 16 * 256, y: 0, zoom: 65536 };
    assert_eq!(cursor_tile(&level, &cam2, 40 * 256, 20 * 256), Some((3, 1)));
}

#[test]
fn pencil_paints_the_selected_layer() {
    let mut maker = maker_on(Level::new_empty(10, 5));
    maker.use_tool(4, 2, 6, 0, true);
    assert_eq!(maker.level.get_tile(4, 2), Tile { terrain: 7, decoration: 0 });
    maker.use_tool(4, 2, 1, 1, true);
    assert_eq!(maker.level.get_tile(4, 2), Tile { terrain: 7, decoration: 2 });
}

#[test]
fn eraser_clears_the_drag_layer() {
    let mut maker = maker_on(Level::new_empty(10, 5));
    maker.use_tool(4, 2, 6, 0, true);
    maker.use_tool(4, 2, 1, 1, true);
    maker.tool = Tool::Eraser;
    maker.dragging = Dragging::WorldOwned(0);
    maker.use_tool(4, 2, 0, 0, true);
    assert_eq!(maker.level.get_tile(4, 2), Tile { terrain: 0, decoration: 2 });
    maker.dragging = Dragging::WorldOwned(1);
    maker.use_tool(4, 2, 0, 0, false);
    assert_eq!(maker.level.get_tile(4, 2), Tile { terrain: 0, decoration: 0 });
}

#[test]
fn bucket_fills_only_on_the_press() {
    let mut maker = maker_on(Level::new_empty(3, 3));
    maker.tool = Tool::Bucket;
    maker.use_tool(1, 1, 4, 0, false);
    assert_eq!(maker.level.get_tile(0, 0), Tile { terrain: 0, decoration: 0 });
    maker.use_tool(1, 1, 4, 0, true);
    for x in 0..3 {
        for y in 0..3 {
            assert_eq!(maker.level.get_tile(x, y), Tile { terrain: 5, decoration: 0 });
        }
    }
}

#[test]
fn character_pencil_places_only_on_the_press() {
    let mut maker = maker_on(Level::new_empty(10, 5));
    maker.active_tab = 2;
    let before = maker.level.characters.len();
    maker.use_tool(5, 1, 1, 2, false);
    assert_eq!(maker.level.characters.len(), before);
    maker.use_tool(5, 1, 1, 2, true);
    assert_eq!(maker.level.characters.len(), before + 1);
}
