//! The tile grid: a flat row-major sequence of two-layer tile bundles plus
//! the list of character markers.  Out-of-bounds reads yield the empty
//! bundle; the grid's length is always `width * height` with the height
//! derived from the length.

use vstd::prelude::*;

verus! {

use vstd::arithmetic::div_mod::lemma_fundamental_div_mod_converse;

/// One grid cell: a terrain index and a decoration index.  `0` means the
/// layer is empty; `n > 0` refers to atlas cell `n - 1`.
#[derive(Clone, Copy, PartialEq, Eq, Structural, Debug)]
pub struct Tile {
    pub terrain: u8,
    pub decoration: u8,
}

impl Tile {
    /// The empty bundle, returned for every out-of-bounds query.
    pub fn empty() -> (t: Tile)
        ensures
            t == Tile::empty_spec(),
    {
        Tile { terrain: 0, decoration: 0 }
    }

    pub open spec fn empty_spec() -> Tile {
        Tile { terrain: 0, decoration: 0 }
    }

    /// Reads one layer: layer `0` is terrain, everything else decoration.
    pub open spec fn layer_spec(self, layer: u8) -> u8 {
        if layer == 0 {
            self.terrain
        } else {
            self.decoration
        }
    }

    pub fn layer(self, layer: u8) -> (r: u8)
        ensures
            r == self.layer_spec(layer),
    {
        if layer == 0 {
            self.terrain
        } else {
            self.decoration
        }
    }

    /// Replaces one layer, returning the new bundle.
    pub open spec fn with_layer_spec(self, layer: u8, index: u8) -> Tile {
        if layer == 0 {
            Tile { terrain: index, ..self }
        } else {
            Tile { decoration: index, ..self }
        }
    }

    pub fn with_layer(self, layer: u8, index: u8) -> (r: Tile)
        ensures
            r == self.with_layer_spec(layer, index),
    {
        if layer == 0 {
            Tile { terrain: index, decoration: self.decoration }
        } else {
            Tile { terrain: self.terrain, decoration: index }
        }
    }
}

/// The closed set of character marker kinds.
#[derive(Clone, Copy, PartialEq, Eq, Structural, Debug)]
pub enum Character {
    PlayerSpawn,
    Checkpoint,
    WanderEnemy(usize),
}

/// A placed character marker.  `x` and `y` are whole world pixels (the
/// editor always places markers at a tile's top-left corner);
/// `atlas_index` remembers which atlas cell the marker is drawn with.
#[derive(Clone, Copy, PartialEq, Eq, Structural, Debug)]
pub struct Marker {
    pub x: i64,
    pub y: i64,
    pub kind: Character,
    pub atlas_index: usize,
}

/// A level: `tiles` is row-major with `tiles.len() == width * height`,
/// where the height is derived as `tiles.len() / width` and never stored.
#[derive(Clone, Debug)]
pub struct Level {
    pub tiles: Vec<Tile>,
    pub width: usize,
    pub characters: Vec<Marker>,
}

impl Level {
    /// Derived height of the grid.
    pub open spec fn spec_height(self) -> int {
        self.tiles@.len() as int / self.width as int
    }

    /// The grid is a whole number of rows.
    pub open spec fn wf_grid(self) -> bool {
        &&& self.width > 0
        &&& self.tiles@.len() == self.spec_height() * self.width
    }

    /// Well-formed level: a whole grid, and marker 0 is always the
    /// player spawn.
    pub open spec fn wf(self) -> bool {
        &&& self.wf_grid()
        &&& self.characters@.len() >= 1
        &&& self.characters@[0].kind == Character::PlayerSpawn
    }

    /// The bundle at `(x, y)`, or the empty bundle outside the grid.
    pub open spec fn tile_at(self, x: int, y: int) -> Tile {
        if 0 <= x < self.width && 0 <= y < self.spec_height() {
            self.tiles@[x + y * self.width]
        } else {
            Tile::empty_spec()
        }
    }

    /// Occupancy of the terrain layer, the only layer collision and
    /// autotiling ever test; out-of-range cells count as unoccupied.
    pub open spec fn terrain_occupied(self, x: int, y: int) -> bool {
        self.tile_at(x, y).terrain != 0
    }

    pub fn height(&self) -> (h: usize)
        requires
            self.wf_grid(),
        ensures
            h == self.spec_height(),
    {
        self.tiles.len() / self.width
    }

    /// Never fails: any coordinate outside `[0,width) x [0,height)` reads
    /// as the empty bundle.
    pub fn get_tile(&self, x: usize, y: usize) -> (t: Tile)
        requires
            self.wf_grid(),
        ensures
            t == self.tile_at(x as int, y as int),
    {
        if x >= self.width || y >= self.height() {
            return Tile::empty();
        }
        // binds the length so its machine bound is in scope for the index
        let n = self.tiles.len();
        proof {
            self.lemma_index_in_range(x as int, y as int);
        }
        self.tiles[x + y * self.width]
    }

    /// In-bounds cells map to an index below `tiles.len()`.
    pub proof fn lemma_index_in_range(self, x: int, y: int)
        requires
            self.wf_grid(),
            0 <= x < self.width,
            0 <= y < self.spec_height(),
        ensures
            0 <= x + y * self.width < self.tiles@.len(),
            y * self.width + self.width <= self.tiles@.len(),
    {
        let w = self.width as int;
        let h = self.spec_height();
        assert(y * w + w == (y + 1) * w) by (nonlinear_arith);
        assert((y + 1) * w <= h * w) by (nonlinear_arith)
            requires
                y + 1 <= h,
                w > 0,
        ;
        assert(y * w >= 0) by (nonlinear_arith)
            requires
                y >= 0,
                w > 0,
        ;
    }

    /// The flat index of an in-bounds cell determines the cell: two
    /// distinct in-bounds coordinates never share an index.
    pub proof fn lemma_index_injective(self, x: int, y: int, x2: int, y2: int)
        requires
            self.wf_grid(),
            0 <= x < self.width,
            0 <= y < self.spec_height(),
            0 <= x2 < self.width,
            0 <= y2 < self.spec_height(),
            x + y * self.width == x2 + y2 * self.width,
        ensures
            x == x2,
            y == y2,
    {
        let w = self.width as int;
        lemma_fundamental_div_mod_converse(x + y * w, w, y, x);
        lemma_fundamental_div_mod_converse(x2 + y2 * w, w, y2, x2);
    }

    /// Writes the bundle of an in-bounds cell.  The grid's shape, and so
    /// its `width * height` length invariant, is unchanged; every other
    /// cell keeps its bundle.
    pub fn set_tile(&mut self, x: usize, y: usize, tile: Tile)
        requires
            old(self).wf_grid(),
            x < old(self).width,
            y < old(self).spec_height(),
        ensures
            final(self).wf_grid(),
            final(self).width == old(self).width,
            final(self).characters == old(self).characters,
            final(self).tiles@.len() == old(self).tiles@.len(),
            final(self).spec_height() == old(self).spec_height(),
            final(self).tiles@ == old(self).tiles@.update(
                x + y * old(self).width,
                tile,
            ),
            final(self).tile_at(x as int, y as int) == tile,
            forall|i: int, j: int|
                !(i == x && j == y) ==> final(self).tile_at(i, j) == old(self).tile_at(i, j),
            final(self).wf() == old(self).wf(),
    {
        // binds the length so its machine bound is in scope for the index
        let n = self.tiles.len();
        proof {
            self.lemma_index_in_range(x as int, y as int);
        }
        let idx = x + y * self.width;
        self.tiles.set(idx, tile);
        proof {
            assert forall|i: int, j: int| !(i == x && j == y) implies self.tile_at(i, j)
                == old(self).tile_at(i, j) by {
                if 0 <= i < self.width && 0 <= j < self.spec_height() {
                    self.lemma_index_in_range(i, j);
                    if i + j * self.width == x + y * self.width {
                        self.lemma_index_injective(i, j, x as int, y as int);
                    }
                }
            }
        }
    }

    /// A fresh all-empty grid with the editor's default player spawn
    /// marker at the level's center-bottom tile.
    pub fn new_empty(width: usize, height: usize) -> (level: Level)
        requires
            0 < width,
            0 < height,
            width * height <= usize::MAX,
            width * 8 + 4 <= i64::MAX,
            height * 8 + 8 <= i64::MAX,
        ensures
            level.wf(),
            level.width == width,
            level.spec_height() == height,
            level.characters@.len() == 1,
            forall|i: int, j: int| level.tile_at(i, j) == Tile::empty_spec(),
    {
        let n = width * height;
        let mut tiles: Vec<Tile> = Vec::new();
        let mut k: usize = 0;
        while k < n
            invariant
                tiles@.len() == k,
                k <= n,
                forall|i: int| 0 <= i < k ==> tiles@[i] == Tile::empty_spec(),
            decreases n - k,
        {
            tiles.push(Tile::empty());
            k = k + 1;
        }
        let spawn = Marker {
            x: (width as i64) * 8 + 4,
            y: (height as i64) * 8 + 8,
            kind: Character::PlayerSpawn,
            atlas_index: 0,
        };
        let mut characters: Vec<Marker> = Vec::new();
        characters.push(spawn);
        let level = Level { tiles, width, characters };
        proof {
            assert(level.tiles@.len() == width * height);
            assert(width as int * height as int == height as int * width as int)
                by (nonlinear_arith);
            assert(level.spec_height() == height) by {
                lemma_fundamental_div_mod_converse(
                    width as int * height as int,
                    width as int,
                    height as int,
                    0,
                );
            }
            assert forall|i: int, j: int| level.tile_at(i, j) == Tile::empty_spec() by {
                if 0 <= i < level.width && 0 <= j < level.spec_height() {
                    level.lemma_index_in_range(i, j);
                }
            }
        }
        level
    }
}

} // verus!
