//! The editor's tool state machine: the pencil, eraser and bucket tools,
//! the per-frame input-ownership classification that keeps UI clicks and
//! world clicks apart, the drag-start layer disambiguation, and the
//! cursor-to-tile mapping.  The per-frame driver (reading the mouse,
//! drawing, laying out buttons) lives outside; it feeds these functions
//! plain values and applies their results.

use vstd::prelude::*;

verus! {

use crate::camera::{Camera, ZOOM_ONE_FX, MIN_ZOOM_FX, SCREEN_COORD_LIMIT};
use crate::fixed::{floor_div_spec, lemma_div_scale_bound, mul_div_floor, floor_div};
use crate::flood::{flood_reachable, get_connected_tiles, seq_has};
use crate::level::{Character, Level, Marker, Tile};
use crate::physics::grid_in_range;

/// One world tile, in subpixels (16 pixels).
pub const TILE_SUB: i64 = 4096;

/// One world tile, in whole pixels: marker positions are kept in pixels.
pub const TILE_PX: i64 = 16;

/// The editor's tools.
#[derive(Clone, Copy, PartialEq, Eq, Structural, Debug)]
pub enum Tool {
    Pencil,
    Eraser,
    Bucket,
}

/// Who owns the pointer this frame: nobody, a UI widget, the world
/// canvas (with the layer the drag started on), or a menu.
#[derive(Clone, Copy, PartialEq, Eq, Structural, Debug)]
pub enum Dragging {
    Idle,
    UiOwned,
    WorldOwned(u8),
    MenuOwned,
}

/// The layer a world drag owns (the tab layer it started on).
pub open spec fn dragging_layer(d: Dragging) -> u8 {
    match d {
        Dragging::WorldOwned(l) => l,
        _ => 0,
    }
}

/// The editor session state around one level.
#[derive(Clone, Debug)]
pub struct GoblinMaker {
    pub level: Level,
    pub camera: Camera,
    pub tool: Tool,
    pub dragging: Dragging,
    pub selected_tile: Option<(usize, u8)>,
    pub active_tab: u8,
}

/// The layer a fresh world drag acts on: the single occupied layer of
/// the clicked cell, or the active tab when the cell is empty, fully
/// occupied, or outside the grid.
pub open spec fn pick_drag_layer_spec(tile: Option<Tile>, active_tab: u8) -> u8 {
    match tile {
        Option::Some(t) => {
            if (t.terrain == 0 && t.decoration == 0) || (t.terrain != 0 && t.decoration != 0) {
                active_tab
            } else if t.terrain == 0 {
                1
            } else {
                0
            }
        },
        Option::None => active_tab,
    }
}

pub fn pick_drag_layer(tile: Option<Tile>, active_tab: u8) -> (layer: u8)
    ensures
        layer == pick_drag_layer_spec(tile, active_tab),
{
    match tile {
        Option::Some(t) => {
            if (t.terrain == 0 && t.decoration == 0) || (t.terrain != 0 && t.decoration != 0) {
                active_tab
            } else if t.terrain == 0 {
                1
            } else {
                0
            }
        },
        Option::None => active_tab,
    }
}

/// The per-frame ownership decision: a click that starts on a UI widget
/// owns the UI, a click that starts on the canvas owns the world with
/// the disambiguated layer, releasing the button frees the pointer, and
/// otherwise the current owner keeps it for the rest of the drag.
pub open spec fn classify_input_owner_spec(
    current: Dragging,
    mouse_down: bool,
    clicked: bool,
    ui_hovered: bool,
    hovered_tile: Option<Tile>,
    active_tab: u8,
) -> Dragging {
    if clicked && ui_hovered {
        Dragging::UiOwned
    } else if clicked {
        Dragging::WorldOwned(pick_drag_layer_spec(hovered_tile, active_tab))
    } else if !mouse_down {
        Dragging::Idle
    } else {
        current
    }
}

pub fn classify_input_owner(
    current: Dragging,
    mouse_down: bool,
    clicked: bool,
    ui_hovered: bool,
    hovered_tile: Option<Tile>,
    active_tab: u8,
) -> (owner: Dragging)
    ensures
        owner == classify_input_owner_spec(
            current,
            mouse_down,
            clicked,
            ui_hovered,
            hovered_tile,
            active_tab,
        ),
{
    if clicked && ui_hovered {
        Dragging::UiOwned
    } else if clicked {
        Dragging::WorldOwned(pick_drag_layer(hovered_tile, active_tab))
    } else if !mouse_down {
        Dragging::Idle
    } else {
        current
    }
}

/// The world subpixel under a screen subpixel for the cursor mapping.
pub open spec fn cursor_world_spec(cam_offset: int, zoom: int, m: int) -> int {
    floor_div_spec(m * ZOOM_ONE_FX as int, zoom) + cam_offset
}

/// The grid cell under the mouse, or nothing when the cursor is outside
/// the grid.
pub open spec fn cursor_tile_spec(level: Level, cam: Camera, mx: int, my: int) -> Option<
    (usize, usize),
> {
    let tx = floor_div_spec(cursor_world_spec(cam.x as int, cam.zoom as int, mx), TILE_SUB as int);
    let ty = floor_div_spec(cursor_world_spec(cam.y as int, cam.zoom as int, my), TILE_SUB as int);
    if 0 <= tx < level.width && 0 <= ty < level.spec_height() {
        Option::Some(((tx as usize), (ty as usize)))
    } else {
        Option::None
    }
}

pub fn cursor_tile(level: &Level, cam: &Camera, mx: i64, my: i64) -> (r: Option<(usize, usize)>)
    requires
        grid_in_range(*level),
        crate::camera::camera_in_range(*cam),
        -SCREEN_COORD_LIMIT <= mx <= SCREEN_COORD_LIMIT,
        -SCREEN_COORD_LIMIT <= my <= SCREEN_COORD_LIMIT,
    ensures
        r == cursor_tile_spec(*level, *cam, mx as int, my as int),
{
    let wx = cursor_world_axis(cam.x, cam.zoom, mx);
    let wy = cursor_world_axis(cam.y, cam.zoom, my);
    let tx = floor_div(wx, TILE_SUB);
    let ty = floor_div(wy, TILE_SUB);
    proof {
        crate::fixed::lemma_div_magnitude(wx as int, TILE_SUB as int);
        crate::fixed::lemma_div_magnitude(wy as int, TILE_SUB as int);
    }
    if 0 <= tx && 0 <= ty && tx < level.width as i64 && ty < level.height() as i64 {
        Some((tx as usize, ty as usize))
    } else {
        None
    }
}

fn cursor_world_axis(cam_offset: i64, zoom: i64, m: i64) -> (r: i64)
    requires
        MIN_ZOOM_FX <= zoom,
        -crate::camera::CAM_LIMIT <= cam_offset <= crate::camera::CAM_LIMIT,
        -SCREEN_COORD_LIMIT <= m <= SCREEN_COORD_LIMIT,
    ensures
        r == cursor_world_spec(cam_offset as int, zoom as int, m as int),
        r > i64::MIN,
{
    proof {
        crate::fixed::lemma_product_bound(
            m as int,
            ZOOM_ONE_FX as int,
            SCREEN_COORD_LIMIT as int,
            ZOOM_ONE_FX as int,
        );
        assert(0x10_0000_0000 * (zoom as int) >= SCREEN_COORD_LIMIT as int * ZOOM_ONE_FX as int)
            by (nonlinear_arith)
            requires
                zoom >= MIN_ZOOM_FX,
        ;
        lemma_div_scale_bound(m as int * ZOOM_ONE_FX as int, zoom as int, 0x10_0000_0000);
    }
    mul_div_floor(m, ZOOM_ONE_FX, zoom) + cam_offset
}

/// Whether some marker sits at exactly the pixel position `(x, y)`.
pub open spec fn has_marker_at(level: Level, x: int, y: int) -> bool {
    exists|i: int|
        0 <= i < level.characters@.len() && (#[trigger] level.characters@[i]).x == x
            && level.characters@[i].y == y
}

/// The marker kind the character palette index stands for.
pub open spec fn character_of_index(tile_index: int) -> Character {
    if tile_index == 0 {
        Character::PlayerSpawn
    } else if tile_index == 1 {
        Character::Checkpoint
    } else {
        Character::WanderEnemy((tile_index - 2) as usize)
    }
}

/// What placing a marker does: nothing on an occupied exact position; a
/// player spawn overwrites marker 0; anything else appends.
pub open spec fn place_character_post(l0: Level, l1: Level, tx: int, ty: int, tile_index: int) -> bool {
    let px = TILE_PX as int * tx;
    let py = TILE_PX as int * ty;
    let m = Marker {
        x: px as i64,
        y: py as i64,
        kind: character_of_index(tile_index),
        atlas_index: tile_index as usize,
    };
    &&& l1.tiles == l0.tiles
    &&& l1.width == l0.width
    &&& l1.characters@ == if has_marker_at(l0, px, py) {
        l0.characters@
    } else if tile_index == 0 {
        l0.characters@.update(0, m)
    } else {
        l0.characters@.push(m)
    }
}

/// Places (or for the player spawn, replaces) a character marker at the
/// tile's top-left, rejecting an exactly-occupied position outright.
pub fn place_character(level: &mut Level, tx: usize, ty: usize, tile_index: usize)
    requires
        old(level).wf(),
        grid_in_range(*old(level)),
        tx < old(level).width,
        ty < old(level).spec_height(),
        tile_index < 0x1000_0000,
    ensures
        place_character_post(*old(level), *final(level), tx as int, ty as int, tile_index as int),
        final(level).wf(),
        grid_in_range(*final(level)),
{
    let px = TILE_PX * (tx as i64);
    let py = TILE_PX * (ty as i64);
    let n = level.characters.len();
    let mut i: usize = 0;
    while i < n
        invariant
            n == level.characters@.len(),
            i <= n,
            forall|j: int|
                0 <= j < i ==> !((#[trigger] level.characters@[j]).x == px as int
                    && level.characters@[j].y == py as int),
        decreases n - i,
    {
        let c = level.characters[i];
        if c.x == px && c.y == py {
            proof {
                assert(has_marker_at(*level, px as int, py as int));
            }
            return ;
        }
        i = i + 1;
    }
    proof {
        assert(!has_marker_at(*level, px as int, py as int));
    }
    let kind = if tile_index == 0 {
        Character::PlayerSpawn
    } else if tile_index == 1 {
        Character::Checkpoint
    } else {
        Character::WanderEnemy(tile_index - 2)
    };
    let m = Marker { x: px, y: py, kind, atlas_index: tile_index };
    if tile_index == 0 {
        level.characters.set(0, m);
    } else {
        level.characters.push(m);
    }
}

/// The markers of `s` that do not sit at `(px, py)`, in order.
pub open spec fn markers_not_at(s: Seq<Marker>, px: int, py: int) -> Seq<Marker>
    decreases s.len(),
{
    if s.len() == 0 {
        Seq::empty()
    } else {
        let rest = markers_not_at(s.drop_last(), px, py);
        if s.last().x == px && s.last().y == py {
            rest
        } else {
            rest.push(s.last())
        }
    }
}

/// What erasing at a cell does: every marker at exactly that position
/// disappears, except marker 0 — the player spawn is never erased, so
/// the spawn invariant survives.
pub open spec fn erase_characters_post(l0: Level, l1: Level, tx: int, ty: int) -> bool {
    let px = TILE_PX as int * tx;
    let py = TILE_PX as int * ty;
    &&& l1.tiles == l0.tiles
    &&& l1.width == l0.width
    &&& l1.characters@ == seq![l0.characters@[0]] + markers_not_at(
        l0.characters@.subrange(1, l0.characters@.len() as int),
        px,
        py,
    )
}

/// Removes the character markers at the hovered cell's exact position
/// (all but the player spawn at marker 0).
pub fn erase_characters_at(level: &mut Level, tx: usize, ty: usize)
    requires
        old(level).wf(),
        grid_in_range(*old(level)),
        tx < old(level).width,
        ty < old(level).spec_height(),
    ensures
        erase_characters_post(*old(level), *final(level), tx as int, ty as int),
        final(level).wf(),
        grid_in_range(*final(level)),
{
    let px = TILE_PX * (tx as i64);
    let py = TILE_PX * (ty as i64);
    let ghost old_chars = level.characters@;
    let n = level.characters.len();
    let mut kept: Vec<Marker> = Vec::new();
    kept.push(level.characters[0]);
    let mut i: usize = 1;
    proof {
        assert(old_chars.subrange(1, 1) =~= Seq::<Marker>::empty());
        assert(kept@ =~= seq![old_chars[0]] + markers_not_at(
            old_chars.subrange(1, 1),
            px as int,
            py as int,
        ));
    }
    while i < n
        invariant
            n == old_chars.len(),
            level.characters@ == old_chars,
            1 <= i <= n,
            kept@ == seq![old_chars[0]] + markers_not_at(
                old_chars.subrange(1, i as int),
                px as int,
                py as int,
            ),
        decreases n - i,
    {
        let c = level.characters[i];
        let ghost pre = old_chars.subrange(1, i as int);
        let ghost cur = old_chars.subrange(1, i as int + 1);
        proof {
            assert(cur.drop_last() =~= pre);
            assert(cur.last() == old_chars[i as int]);
            assert(cur.len() > 0);
        }
        if !(c.x == px && c.y == py) {
            kept.push(c);
        }
        i = i + 1;
    }
    proof {
        assert(old_chars.subrange(1, n as int) == old_chars.subrange(1, old_chars.len() as int));
    }
    level.characters = kept;
}

/// What one pencil stroke on a tile layer does: the hovered cell's
/// chosen layer takes the selected atlas index, one-biased.
pub open spec fn paint_cell_post(
    l0: Level,
    l1: Level,
    tx: int,
    ty: int,
    layer: u8,
    index: u8,
) -> bool {
    &&& l1.width == l0.width
    &&& l1.characters == l0.characters
    &&& l1.tiles@ == l0.tiles@.update(tx + ty * l0.width, l0.tile_at(tx, ty).with_layer_spec(layer, index))
}

/// What a bucket click does: every cell of the region 4-connected to the
/// clicked cell over empty terrain — and the clicked cell itself — takes
/// the selected index on the chosen layer; every other cell keeps its
/// bundle.
pub open spec fn bucket_post(l0: Level, l1: Level, tx: int, ty: int, layer: u8, index: u8) -> bool {
    &&& l1.width == l0.width
    &&& l1.characters == l0.characters
    &&& l1.tiles@.len() == l0.tiles@.len()
    &&& forall|x: int, y: int|
        0 <= x < l0.width && 0 <= y < l0.spec_height() ==> #[trigger] l1.tile_at(x, y) == (
        if flood_reachable(l0, tx, ty, x, y) {
            l0.tile_at(x, y).with_layer_spec(layer, index)
        } else {
            l0.tile_at(x, y)
        })
}

/// Fills the bucket region from `(tx, ty)` with `index` on `layer`.
pub fn bucket_fill(level: &mut Level, tx: usize, ty: usize, layer: u8, index: u8)
    requires
        old(level).wf(),
        grid_in_range(*old(level)),
        tx < old(level).width,
        ty < old(level).spec_height(),
    ensures
        bucket_post(*old(level), *final(level), tx as int, ty as int, layer, index),
        final(level).wf(),
        grid_in_range(*final(level)),
{
    let ghost l0 = *level;
    let region = get_connected_tiles(level, tx, ty);
    let n = region.len();
    let mut i: usize = 0;
    while i < n
        invariant
            n == region@.len(),
            i <= n,
            level.width == l0.width,
            level.characters == l0.characters,
            level.tiles@.len() == l0.tiles@.len(),
            level.wf(),
            grid_in_range(*level),
            forall|k: int, j: int| 0 <= k < j < region@.len() ==> region@[k] != region@[j],
            forall|k: int|
                0 <= k < region@.len() ==> (#[trigger] region@[k]).0 < l0.width && region@[k].1
                    < l0.spec_height(),
            forall|x: int, y: int|
                #[trigger] seq_has(region@, x, y) <==> flood_reachable(l0, tx as int, ty as int, x, y),
            forall|x: int, y: int|
                0 <= x < l0.width && 0 <= y < l0.spec_height() ==> #[trigger] level.tile_at(x, y)
                    == (if seq_has(region@.subrange(0, i as int), x, y) {
                    l0.tile_at(x, y).with_layer_spec(layer, index)
                } else {
                    l0.tile_at(x, y)
                }),
        decreases n - i,
    {
        let (cx, cy) = region[i];
        let ghost pre = region@.subrange(0, i as int);
        let ghost cur = region@.subrange(0, i as int + 1);
        proof {
            // this cell is not painted yet: it appears only at slot i
            assert(!seq_has(pre, cx as int, cy as int)) by {
                if seq_has(pre, cx as int, cy as int) {
                    let j = choose|j: int|
                        0 <= j < pre.len() && (#[trigger] pre[j]).0 == cx as int && pre[j].1
                            == cy as int;
                    assert(region@[j] == pre[j]);
                }
            }
        }
        let t = level.get_tile(cx, cy);
        level.set_tile(cx, cy, t.with_layer(layer, index));
        proof {
            assert forall|x: int, y: int|
                0 <= x < l0.width && 0 <= y < l0.spec_height() implies #[trigger] level.tile_at(
                x,
                y,
            ) == (if seq_has(cur, x, y) {
                l0.tile_at(x, y).with_layer_spec(layer, index)
            } else {
                l0.tile_at(x, y)
            }) by {
                if x == cx as int && y == cy as int {
                    assert(cur[i as int] == region@[i as int]);
                    assert(seq_has(cur, x, y));
                } else {
                    assert(seq_has(cur, x, y) <==> seq_has(pre, x, y)) by {
                        if seq_has(cur, x, y) {
                            let j = choose|j: int|
                                0 <= j < cur.len() && (#[trigger] cur[j]).0 == x && cur[j].1 == y;
                            if j < i as int {
                                assert(pre[j] == cur[j]);
                            } else {
                                assert(cur[j] == region@[i as int]);
                            }
                        }
                        if seq_has(pre, x, y) {
                            let j = choose|j: int|
                                0 <= j < pre.len() && (#[trigger] pre[j]).0 == x && pre[j].1 == y;
                            assert(cur[j] == pre[j]);
                        }
                    }
                }
            }
        }
        i = i + 1;
    }
    proof {
        assert(region@.subrange(0, n as int) =~= region@);
        assert forall|x: int, y: int|
            0 <= x < l0.width && 0 <= y < l0.spec_height() implies #[trigger] level.tile_at(x, y)
            == (if flood_reachable(l0, tx as int, ty as int, x, y) {
            l0.tile_at(x, y).with_layer_spec(layer, index)
        } else {
            l0.tile_at(x, y)
        }) by {
            assert(seq_has(region@, x, y) <==> flood_reachable(l0, tx as int, ty as int, x, y));
        }
    }
}

impl GoblinMaker {
    /// Applies the active tool at the hovered tile, once per frame
    /// while the world owns the drag:
    /// the pencil paints one cell (or places a marker on the character
    /// tab, only on the initial press), the eraser clears the layer the
    /// drag started on (or removes markers on the character tab), and
    /// the bucket fills the connected empty region on the initial press.
    pub fn use_tool(&mut self, tx: usize, ty: usize, tile_index: usize, tab_index: u8, clicked: bool)
        requires
            old(self).level.wf(),
            grid_in_range(old(self).level),
            tx < old(self).level.width,
            ty < old(self).level.spec_height(),
            tile_index < 254,
            old(self).tool == Tool::Eraser && old(self).active_tab != 2 ==> (old(
                self,
            ).dragging matches Dragging::WorldOwned(l) && l < 2),
            old(self).tool == Tool::Bucket && clicked ==> tab_index < 2,
        ensures
            final(self).camera == old(self).camera,
            final(self).tool == old(self).tool,
            final(self).dragging == old(self).dragging,
            final(self).selected_tile == old(self).selected_tile,
            final(self).active_tab == old(self).active_tab,
            final(self).level.wf(),
            grid_in_range(final(self).level),
            old(self).tool == Tool::Pencil && tab_index == 2 && clicked ==> place_character_post(
                old(self).level,
                final(self).level,
                tx as int,
                ty as int,
                tile_index as int,
            ),
            old(self).tool == Tool::Pencil && tab_index == 2 && !clicked ==> final(self).level
                == old(self).level,
            old(self).tool == Tool::Pencil && tab_index != 2 ==> paint_cell_post(
                old(self).level,
                final(self).level,
                tx as int,
                ty as int,
                tab_index,
                (tile_index + 1) as u8,
            ),
            old(self).tool == Tool::Eraser && old(self).active_tab == 2 ==> erase_characters_post(
                old(self).level,
                final(self).level,
                tx as int,
                ty as int,
            ),
            old(self).tool == Tool::Eraser && old(self).active_tab != 2 ==> paint_cell_post(
                old(self).level,
                final(self).level,
                tx as int,
                ty as int,
                dragging_layer(old(self).dragging),
                0,
            ),
            old(self).tool == Tool::Bucket && clicked ==> bucket_post(
                old(self).level,
                final(self).level,
                tx as int,
                ty as int,
                tab_index,
                (tile_index + 1) as u8,
            ),
            old(self).tool == Tool::Bucket && !clicked ==> final(self).level == old(self).level,
    {
        match self.tool {
            Tool::Pencil => {
                if tab_index == 2 {
                    if clicked {
                        place_character(&mut self.level, tx, ty, tile_index);
                    }
                } else {
                    let t = self.level.get_tile(tx, ty);
                    let idx = (tile_index as u8) + 1;
                    self.level.set_tile(tx, ty, t.with_layer(tab_index, idx));
                }
            },
            Tool::Eraser => {
                if self.active_tab == 2 {
                    erase_characters_at(&mut self.level, tx, ty);
                } else {
                    let layer = match self.dragging {
                        Dragging::WorldOwned(l) => l,
                        _ => {
                            proof {
                                assert(false);
                            }
                            0
                        },
                    };
                    let t = self.level.get_tile(tx, ty);
                    self.level.set_tile(tx, ty, t.with_layer(layer, 0));
                }
            },
            Tool::Bucket => {
                if clicked {
                    let idx = (tile_index as u8) + 1;
                    bucket_fill(&mut self.level, tx, ty, tab_index, idx);
                }
            },
        }
    }
}

} // verus!
