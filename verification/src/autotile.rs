//! The autotiling engine.  A terrain tile stored as index 0 draws the
//! atlas cell selected by its 4-bit neighbor-occupancy key (up, left,
//! right, down against the terrain layer, out-of-range neighbors
//! unoccupied).  The ruleset is built once from a rule image whose cell
//! corner pixels encode the key in their color channels; a ruleset that
//! misses one of the sixteen combinations is a content error caught at
//! build time, never a runtime failure.  Tiles with a nonzero index
//! bypass the ruleset and map to a fixed atlas cell by their index.

use vstd::prelude::*;

verus! {

use crate::level::Level;

/// A ruleset that does not cover all sixteen neighbor combinations.
#[derive(Clone, Copy, PartialEq, Eq, Structural, Debug)]
pub enum RulesetError {
    MissingCombination,
}

/// The autotile ruleset: one atlas cell per 4-bit neighbor key.
#[derive(Clone, Debug)]
pub struct AutotileRules {
    pub cells: Vec<Option<(u32, u32)>>,
}

/// The slot a neighbor-occupancy combination selects.
pub open spec fn key_index(up: bool, left: bool, right: bool, down: bool) -> int {
    (if up {
        8int
    } else {
        0int
    }) + (if left {
        4int
    } else {
        0int
    }) + (if right {
        2int
    } else {
        0int
    }) + (if down {
        1int
    } else {
        0int
    })
}

/// The neighbor-occupancy key of a grid cell, each side tested only
/// against the terrain layer, out-of-range neighbors unoccupied.
pub open spec fn neighbor_key_spec(level: Level, x: int, y: int) -> (bool, bool, bool, bool) {
    (
        level.terrain_occupied(x, y - 1),
        level.terrain_occupied(x - 1, y),
        level.terrain_occupied(x + 1, y),
        level.terrain_occupied(x, y + 1),
    )
}

/// Samples the four cardinal terrain neighbors of `(x, y)`.
pub fn neighbor_key(level: &Level, x: usize, y: usize) -> (r: (bool, bool, bool, bool))
    requires
        level.wf_grid(),
    ensures
        r == neighbor_key_spec(*level, x as int, y as int),
{
    // binds the length so its machine bound is in scope for the edges
    let total = level.tiles.len();
    let up = if y == 0 {
        false
    } else {
        level.get_tile(x, y - 1).terrain != 0
    };
    let left = if x == 0 {
        false
    } else {
        level.get_tile(x - 1, y).terrain != 0
    };
    let right = if x == usize::MAX {
        false
    } else {
        level.get_tile(x + 1, y).terrain != 0
    };
    let down = if y == usize::MAX {
        false
    } else {
        level.get_tile(x, y + 1).terrain != 0
    };
    proof {
        if y == 0 {
            assert(!level.terrain_occupied(x as int, y as int - 1));
        }
        if x == 0 {
            assert(!level.terrain_occupied(x as int - 1, y as int));
        }
        if x == usize::MAX {
            assert(!level.terrain_occupied(x as int + 1, y as int));
        }
        if y == usize::MAX {
            assert(!level.terrain_occupied(x as int, y as int + 1));
        }
    }
    (up, left, right, down)
}

/// The fixed atlas cell of a non-autotiled tile index: the one-biased
/// index laid out row-major over `columns` columns.
pub open spec fn fixed_atlas_spec(index: u8, columns: u8) -> (int, int) {
    (((index - 1) % (columns as int)), ((index - 1) / (columns as int)))
}

pub fn fixed_atlas(index: u8, columns: u8) -> (r: (u8, u8))
    requires
        index >= 1,
        columns >= 1,
    ensures
        r.0 == fixed_atlas_spec(index, columns).0,
        r.1 == fixed_atlas_spec(index, columns).1,
{
    ((index - 1) % columns, (index - 1) / columns)
}

impl AutotileRules {
    pub open spec fn wf(self) -> bool {
        self.cells@.len() == 16
    }

    /// Whether every one of the sixteen combinations has a cell.
    pub open spec fn complete(self) -> bool {
        forall|k: int| 0 <= k < 16 ==> (#[trigger] self.cells@[k]) is Some
    }

    pub fn is_complete(&self) -> (r: bool)
        requires
            self.wf(),
        ensures
            r == self.complete(),
    {
        let mut k: usize = 0;
        while k < 16
            invariant
                k <= 16,
                self.wf(),
                forall|j: int| 0 <= j < k ==> (#[trigger] self.cells@[j]) is Some,
            decreases 16 - k,
        {
            if self.cells[k].is_none() {
                return false;
            }
            k = k + 1;
        }
        true
    }

    /// The atlas cell for one neighbor combination.
    pub fn lookup(&self, up: bool, left: bool, right: bool, down: bool) -> (r: Option<(u32, u32)>)
        requires
            self.wf(),
        ensures
            r == self.cells@[key_index(up, left, right, down)],
            self.complete() ==> r is Some,
    {
        let mut k: usize = 0;
        if up {
            k = k + 8;
        }
        if left {
            k = k + 4;
        }
        if right {
            k = k + 2;
        }
        if down {
            k = k + 1;
        }
        self.cells[k]
    }
}

/// A complete ruleset answers every one of the sixteen neighbor
/// combinations.
pub proof fn lemma_complete_covers(rules: AutotileRules, up: bool, left: bool, right: bool, down: bool)
    requires
        rules.wf(),
        rules.complete(),
    ensures
        rules.cells@[key_index(up, left, right, down)] is Some,
{
}

/// The color-channel key of the rule image pixel at `(px, py)`: each
/// channel at full intensity marks that neighbor occupied.
pub open spec fn image_pixel(rgba: Seq<u8>, img_w: int, px: int, py: int) -> (u8, u8, u8, u8) {
    let off = px * 4 + py * 4 * img_w;
    (rgba[off], rgba[off + 1], rgba[off + 2], rgba[off + 3])
}

/// The ruleset contents after the first `s` cells of the rule image
/// scan (columns outermost, as the rule image is read): a cell whose
/// corner pixel is not fully transparent registers its key, later cells
/// overwriting earlier ones.
pub open spec fn rules_upto(
    s: int,
    tiles_h: int,
    img_w: int,
    rgba: Seq<u8>,
) -> Seq<Option<(u32, u32)>>
    decreases s,
{
    if s <= 0 {
        Seq::new(16, |k: int| Option::None)
    } else {
        let prev = rules_upto(s - 1, tiles_h, img_w, rgba);
        let x = (s - 1) / tiles_h;
        let y = (s - 1) % tiles_h;
        let (r, g, b, a) = image_pixel(rgba, img_w, x * 16, y * 16);
        if a == 0 {
            prev
        } else {
            prev.update(
                key_index(r == 255, g == 255, b == 255, a == 255),
                Option::Some(((x * 16) as u32, ((y * 16) as u32))),
            )
        }
    }
}

impl AutotileRules {
    /// Builds the ruleset from a rule image: each 16-pixel cell's corner
    /// pixel encodes a neighbor combination in its channels, fully
    /// transparent cells are skipped, and a scan that leaves any of the
    /// sixteen combinations unregistered is rejected as a content error.
    /// The registered value is the cell's pixel position in the paired
    /// tile atlas, as the renderer consumes it.
    pub fn from_rule_image(tiles_w: usize, tiles_h: usize, img_w: usize, rgba: &Vec<u8>) -> (r:
        Result<AutotileRules, RulesetError>)
        requires
            1 <= tiles_w <= 0x1000,
            1 <= tiles_h <= 0x1000,
            tiles_w * 16 <= img_w <= 0x10000,
            tiles_h * 16 * img_w * 4 <= rgba@.len(),
            rgba@.len() <= 0x1000_0000,
        ensures
            ({
                let end = rules_upto(tiles_w as int * tiles_h as int, tiles_h as int, img_w as int, rgba@);
                match r {
                    Result::Ok(rules) => {
                        &&& rules.wf()
                        &&& rules.complete()
                        &&& rules.cells@ == end
                    },
                    Result::Err(e) => {
                        &&& e == RulesetError::MissingCombination
                        &&& exists|k: int| 0 <= k < 16 && (#[trigger] end[k]) is None
                    },
                }
            }),
    {
        let mut cells: Vec<Option<(u32, u32)>> = Vec::new();
        let mut k: usize = 0;
        while k < 16
            invariant
                cells@.len() == k,
                k <= 16,
                forall|j: int| 0 <= j < k ==> (#[trigger] cells@[j]) is None,
            decreases 16 - k,
        {
            cells.push(None);
            k = k + 1;
        }
        proof {
            assert(cells@ =~= rules_upto(0, tiles_h as int, img_w as int, rgba@));
            assert(0 * (tiles_h as int) == 0) by (nonlinear_arith);
        }
        let mut x: usize = 0;
        while x < tiles_w
            invariant
                x <= tiles_w,
                1 <= tiles_w <= 0x1000,
                1 <= tiles_h <= 0x1000,
                tiles_w * 16 <= img_w <= 0x10000,
                tiles_h * 16 * img_w * 4 <= rgba@.len(),
                rgba@.len() <= 0x1000_0000,
                cells@.len() == 16,
                cells@ == rules_upto(
                    x as int * tiles_h as int,
                    tiles_h as int,
                    img_w as int,
                    rgba@,
                ),
            decreases tiles_w - x,
        {
            let mut y: usize = 0;
            while y < tiles_h
                invariant
                    x < tiles_w,
                    y <= tiles_h,
                    1 <= tiles_w <= 0x1000,
                    1 <= tiles_h <= 0x1000,
                    tiles_w * 16 <= img_w <= 0x10000,
                    tiles_h * 16 * img_w * 4 <= rgba@.len(),
                    rgba@.len() <= 0x1000_0000,
                    cells@.len() == 16,
                    cells@ == rules_upto(
                        x as int * tiles_h as int + y as int,
                        tiles_h as int,
                        img_w as int,
                        rgba@,
                    ),
                decreases tiles_h - y,
            {
                let ghost s = x as int * tiles_h as int + y as int;
                proof {
                    lemma_scan_index(x as int, y as int, tiles_h as int);
                    lemma_pixel_offset_bound(
                        x as int,
                        y as int,
                        tiles_w as int,
                        tiles_h as int,
                        img_w as int,
                        rgba@.len() as int,
                    );
                }
                let off = x * 16 * 4 + y * 16 * 4 * img_w;
                let pr = rgba[off];
                let pg = rgba[off + 1];
                let pb = rgba[off + 2];
                let pa = rgba[off + 3];
                if pa != 0 {
                    let mut key: usize = 0;
                    if pr == 255 {
                        key = key + 8;
                    }
                    if pg == 255 {
                        key = key + 4;
                    }
                    if pb == 255 {
                        key = key + 2;
                    }
                    if pa == 255 {
                        key = key + 1;
                    }
                    cells.set(key, Some(((x * 16) as u32, (y * 16) as u32)));
                }
                y = y + 1;
            }
            proof {
                assert((x as int + 1) * (tiles_h as int) == x as int * (tiles_h as int)
                    + tiles_h as int) by (nonlinear_arith);
            }
            x = x + 1;
        }
        let rules = AutotileRules { cells };
        if rules.is_complete() {
            Ok(rules)
        } else {
            Err(RulesetError::MissingCombination)
        }
    }
}

/// The cells whose drawn appearance a single-tile edit at `(x, y)` can
/// change: the cell itself and its in-bounds cardinal neighbors, since a
/// neighbor's occupancy picks its autotile rule.  The editor re-derives
/// exactly these up-to-five cells per edit.
pub fn refresh_cells(level: &Level, x: usize, y: usize) -> (r: Vec<(usize, usize)>)
    requires
        level.wf_grid(),
        x < level.width,
        y < level.spec_height(),
    ensures
        forall|i: int, j: int| 0 <= i < j < r@.len() ==> r@[i] != r@[j],
        forall|i: int|
            0 <= i < r@.len() ==> ({
                let (a, b) = #[trigger] r@[i];
                &&& a < level.width
                &&& b < level.spec_height()
                &&& ((a == x && b == y) || crate::flood::adjacent(a as int, b as int, x as int, y as int))
            }),
        crate::flood::seq_has(r@, x as int, y as int),
        y >= 1 ==> crate::flood::seq_has(r@, x as int, y as int - 1),
        x >= 1 ==> crate::flood::seq_has(r@, x as int - 1, y as int),
        x + 1 < level.width ==> crate::flood::seq_has(r@, x as int + 1, y as int),
        y + 1 < level.spec_height() ==> crate::flood::seq_has(r@, x as int, y as int + 1),
{
    let mut r: Vec<(usize, usize)> = Vec::new();
    r.push((x, y));
    if y >= 1 {
        r.push((x, y - 1));
    }
    if x >= 1 {
        r.push((x - 1, y));
    }
    if x + 1 < level.width {
        r.push((x + 1, y));
    }
    let h = level.height();
    if y + 1 < h {
        r.push((x, y + 1));
    }
    proof {
        assert(r@[0] == ((x, y)));
        assert(crate::flood::seq_has(r@, x as int, y as int));
        if y >= 1 {
            assert(r@[1] == ((x, (y - 1) as usize)));
            assert(crate::flood::seq_has(r@, x as int, y as int - 1));
        }
        if x >= 1 {
            let i = if y >= 1 {
                2int
            } else {
                1int
            };
            assert(r@[i] == (((x - 1) as usize, y)));
            assert(crate::flood::seq_has(r@, x as int - 1, y as int));
        }
        if x + 1 < level.width {
            let i = (if y >= 1 {
                1int
            } else {
                0int
            }) + (if x >= 1 {
                1int
            } else {
                0int
            }) + 1;
            assert(r@[i] == ((((x + 1) as usize), y)));
            assert(crate::flood::seq_has(r@, x as int + 1, y as int));
        }
        if y + 1 < level.spec_height() {
            assert(r@[r@.len() - 1] == ((x, ((y + 1) as usize))));
            assert(crate::flood::seq_has(r@, x as int, y as int + 1));
        }
    }
    r
}

/// The alpha channel of the atlas pixel at `(px, py)`.
pub open spec fn alpha_at(rgba: Seq<u8>, img_w: int, px: int, py: int) -> u8 {
    rgba[(py * img_w + px) * 4 + 3]
}

/// Whether the 16-pixel atlas cell at cell coordinates `(cx, cy)` is
/// fully transparent: the palette's end marker.
pub open spec fn atlas_cell_blank(rgba: Seq<u8>, img_w: int, cx: int, cy: int) -> bool {
    forall|px: int, py: int|
        cx * 16 <= px < cx * 16 + 16 && cy * 16 <= py < cy * 16 + 16 ==> #[trigger] alpha_at(
            rgba,
            img_w,
            px,
            py,
        ) == 0
}

/// Every pixel of an in-range cell lies inside the image bytes.
proof fn lemma_alpha_offset(px: int, py: int, tiles_w: int, tiles_h: int, img_w: int, len: int)
    requires
        0 <= px < tiles_w * 16,
        0 <= py < tiles_h * 16,
        tiles_w * 16 <= img_w,
        tiles_h * 16 * img_w * 4 <= len,
    ensures
        0 <= (py * img_w + px) * 4 + 3 < len,
{
    assert((py * img_w + px) * 4 + 3 < len) by (nonlinear_arith)
        requires
            0 <= px < tiles_w * 16,
            0 <= py < tiles_h * 16,
            tiles_w * 16 <= img_w,
            tiles_h * 16 * img_w * 4 <= len,
    ;
    assert(0 <= (py * img_w + px) * 4) by (nonlinear_arith)
        requires
            0 <= px,
            0 <= py,
            16 <= img_w,
    ;
}

/// Whether one atlas cell is fully transparent.
fn atlas_cell_is_blank(tiles_w: usize, tiles_h: usize, img_w: usize, rgba: &Vec<u8>, cx: usize, cy: usize) -> (r: bool)
    requires
        1 <= tiles_w <= 0x1000,
        1 <= tiles_h <= 0x1000,
        tiles_w * 16 <= img_w <= 0x10000,
        tiles_h * 16 * img_w * 4 <= rgba@.len(),
        rgba@.len() <= 0x1000_0000,
        cx < tiles_w,
        cy < tiles_h,
    ensures
        r == atlas_cell_blank(rgba@, img_w as int, cx as int, cy as int),
{
    let mut dy: usize = 0;
    while dy < 16
        invariant
            dy <= 16,
            forall|px: int, py: int|
                cx as int * 16 <= px < cx as int * 16 + 16 && cy as int * 16 <= py < cy as int * 16
                    + dy ==> #[trigger] alpha_at(rgba@, img_w as int, px, py) == 0,
        decreases 16 - dy,
    {
        let py = cy * 16 + dy;
        let mut dx: usize = 0;
        while dx < 16
            invariant
                dx <= 16,
                dy < 16,
                py == cy * 16 + dy,
                forall|px: int, qy: int|
                    cx as int * 16 <= px < cx as int * 16 + 16 && cy as int * 16 <= qy < cy as int
                        * 16 + dy ==> #[trigger] alpha_at(rgba@, img_w as int, px, qy) == 0,
                forall|px: int|
                    cx as int * 16 <= px < cx as int * 16 + dx ==> #[trigger] alpha_at(
                        rgba@,
                        img_w as int,
                        px,
                        py as int,
                    ) == 0,
            decreases 16 - dx,
        {
            let px = cx * 16 + dx;
            proof {
                lemma_alpha_offset(
                    px as int,
                    py as int,
                    tiles_w as int,
                    tiles_h as int,
                    img_w as int,
                    rgba@.len() as int,
                );
            }
            let off = (py * img_w + px) * 4 + 3;
            if rgba[off] != 0 {
                proof {
                    assert(alpha_at(rgba@, img_w as int, px as int, py as int) != 0);
                }
                return false;
            }
            dx = dx + 1;
        }
        dy = dy + 1;
    }
    true
}

/// The atlas palette: the cells of the atlas image in reading order up
/// to (not including) the first fully transparent cell, as cell
/// coordinates.  The first blank column ends the palette, which is how
/// an atlas declares how many tiles it offers.
pub fn scan_atlas_cells(tiles_w: usize, tiles_h: usize, img_w: usize, rgba: &Vec<u8>) -> (r: Vec<
    (u32, u32),
>)
    requires
        1 <= tiles_w <= 0x1000,
        1 <= tiles_h <= 0x1000,
        tiles_w * 16 <= img_w <= 0x10000,
        tiles_h * 16 * img_w * 4 <= rgba@.len(),
        rgba@.len() <= 0x1000_0000,
    ensures
        r@.len() <= tiles_w * tiles_h,
        forall|k: int|
            0 <= k < r@.len() ==> (#[trigger] r@[k]) == (((k % (tiles_w as int)) as u32, ((k / (
            tiles_w as int)) as u32))) && !atlas_cell_blank(
                rgba@,
                img_w as int,
                k % (tiles_w as int),
                k / (tiles_w as int),
            ),
        r@.len() < tiles_w * tiles_h ==> atlas_cell_blank(
            rgba@,
            img_w as int,
            (r@.len() as int) % (tiles_w as int),
            (r@.len() as int) / (tiles_w as int),
        ),
{
    let mut r: Vec<(u32, u32)> = Vec::new();
    let mut y: usize = 0;
    while y < tiles_h
        invariant
            y <= tiles_h,
            1 <= tiles_w <= 0x1000,
            1 <= tiles_h <= 0x1000,
            tiles_w * 16 <= img_w <= 0x10000,
            tiles_h * 16 * img_w * 4 <= rgba@.len(),
            rgba@.len() <= 0x1000_0000,
            r@.len() == y * tiles_w,
            forall|k: int|
                0 <= k < r@.len() ==> (#[trigger] r@[k]) == (((k % (tiles_w as int)) as u32, ((k / (
                tiles_w as int)) as u32))) && !atlas_cell_blank(
                    rgba@,
                    img_w as int,
                    k % (tiles_w as int),
                    k / (tiles_w as int),
                ),
        decreases tiles_h - y,
    {
        let mut x: usize = 0;
        proof {
            assert(y * tiles_w + tiles_w == (y + 1) * tiles_w) by (nonlinear_arith);
            assert((y + 1) * tiles_w <= tiles_h * tiles_w) by (nonlinear_arith)
                requires
                    y + 1 <= tiles_h,
                    tiles_w >= 1,
            ;
            assert(tiles_h * tiles_w == tiles_w * tiles_h) by (nonlinear_arith);
        }
        while x < tiles_w
            invariant
                x <= tiles_w,
                y < tiles_h,
                1 <= tiles_w <= 0x1000,
                1 <= tiles_h <= 0x1000,
                tiles_w * 16 <= img_w <= 0x10000,
                tiles_h * 16 * img_w * 4 <= rgba@.len(),
                rgba@.len() <= 0x1000_0000,
                r@.len() == y * tiles_w + x,
                y * tiles_w + tiles_w <= tiles_w * tiles_h,
                forall|k: int|
                    0 <= k < r@.len() ==> (#[trigger] r@[k]) == (((k % (tiles_w as int)) as u32, ((k
                        / (tiles_w as int)) as u32))) && !atlas_cell_blank(
                        rgba@,
                        img_w as int,
                        k % (tiles_w as int),
                        k / (tiles_w as int),
                    ),
            decreases tiles_w - x,
        {
            proof {
                lemma_scan_index(y as int, x as int, tiles_w as int);
            }
            if atlas_cell_is_blank(tiles_w, tiles_h, img_w, rgba, x, y) {
                return r;
            }
            let ghost r0 = r@;
            r.push((x as u32, y as u32));
            proof {
                let tw = tiles_w as int;
                assert forall|k: int|
                    0 <= k < r@.len() implies (#[trigger] r@[k]) == (((k % tw) as u32, ((k
                    / tw) as u32))) && !atlas_cell_blank(rgba@, img_w as int, k % tw, k / tw) by {
                    if k < r0.len() {
                        assert(r@[k] == r0[k]);
                    } else {
                        assert(r@[k] == ((x as u32, y as u32)));
                        assert(k == y * tw + x);
                    }
                }
            }
            x = x + 1;
        }
        y = y + 1;
    }
    proof {
        assert(tiles_h * tiles_w == tiles_w * tiles_h) by (nonlinear_arith);
    }
    r
}

/// The flat scan index of cell `(x, y)` steps to its coordinates.
proof fn lemma_scan_index(x: int, y: int, tiles_h: int)
    requires
        0 <= y < tiles_h,
        0 <= x,
    ensures
        (x * tiles_h + y) / tiles_h == x,
        (x * tiles_h + y) % tiles_h == y,
{
    vstd::arithmetic::div_mod::lemma_fundamental_div_mod_converse(x * tiles_h + y, tiles_h, x, y);
}

/// Every scanned corner pixel lies inside the image bytes.
proof fn lemma_pixel_offset_bound(x: int, y: int, tiles_w: int, tiles_h: int, img_w: int, len: int)
    requires
        0 <= x < tiles_w,
        0 <= y < tiles_h,
        tiles_w * 16 <= img_w,
        tiles_h * 16 * img_w * 4 <= len,
    ensures
        0 <= x * 16 * 4 + y * 16 * 4 * img_w,
        x * 16 * 4 + y * 16 * 4 * img_w + 4 <= len,
{
    assert(x * 16 * 4 + y * 16 * 4 * img_w + 4 <= len) by (nonlinear_arith)
        requires
            0 <= x < tiles_w,
            0 <= y < tiles_h,
            tiles_w * 16 <= img_w,
            tiles_h * 16 * img_w * 4 <= len,
    ;
    assert(0 <= x * 16 * 4 + y * 16 * 4 * img_w) by (nonlinear_arith)
        requires
            0 <= x,
            0 <= y,
            16 <= img_w,
    ;
}

} // verus!
