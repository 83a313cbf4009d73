//! Tiles, chunks, and procedural column generation.
//!
//! A chunk is a fixed-width, full-world-height, column-major grid of
//! optional tiles anchored at a world column that is an exact multiple of
//! the chunk width. Each column's ground height comes from one noise
//! sample; the strata below the surface follow a fixed top-down order:
//! grass, grassy dirt, dirt, then stone to the world floor.

use vstd::prelude::*;

verus! {

use crate::fixed::{Fixed, FIXED_SCALE};
use crate::util::{Coord, Dim};
use crate::noise_field::{NoiseField, spec_sample};

/// Columns per chunk.
pub const CHUNK_WIDTH: usize = 16;

/// Rows per chunk: the full height of the world.
pub const CHUNK_HEIGHT: usize = 256;

/// Cells per chunk.
pub const CHUNK_AREA: usize = 4096;

/// Highest row the ground surface can reach.
pub const TERRAIN_HEIGHT: usize = 196;

/// Lowest row the ground surface can reach.
pub const TERRAIN_BASE: usize = 128;

/// Raw fixed-point distance between the noise coordinates of adjacent world
/// columns: one eighth of a tile, i.e. the noise is sampled at
/// `world_col / (CHUNK_WIDTH / 2)`.
pub const NOISE_SAMPLE_STEP: i64 = 450;

/// Bound on world columns the engine works with; keeps every coordinate
/// computation far from the machine limits.
pub const WORLD_LIMIT: i64 = 0x4000_0000_0000;

/// The color of a decorative flower.
#[derive(Clone, Copy, PartialEq, Eq, Structural, Debug)]
pub enum FlowerColor {
    Red,
    Yellow,
    Blue,
    Magenta,
    White,
}

/// The material occupying one grid cell; absence of a tile is air.
#[derive(Clone, Copy, PartialEq, Eq, Structural, Debug)]
pub enum Tile {
    Dirt,
    Stone,
    GrassyDirt,
    Grass,
    Flower(FlowerColor),
}

impl Tile {
    /// Whether the tile blocks entity movement: every variant does, except
    /// the walk-through decorations `Grass` and `Flower`. Impassability is
    /// determined solely by the variant.
    pub open spec fn spec_impassable(self) -> bool {
        !(self is Grass || self is Flower)
    }

    pub fn is_impassable(&self) -> (r: bool)
        ensures
            r == self.spec_impassable(),
    {
        match self {
            Tile::Grass => false,
            Tile::Flower(_) => false,
            _ => true,
        }
    }
}

/// The ground height of a world column: the noise value in `[-1, 1]` is
/// remapped to `[0, 1]` and scaled into the base-to-top range.
pub open spec fn spec_surface_height(seed: u32, col: int) -> int {
    let v = spec_sample(seed, col * (NOISE_SAMPLE_STEP as int));
    let unit = (v + FIXED_SCALE as int) / 2;
    (TERRAIN_BASE as int) + unit * ((TERRAIN_HEIGHT as int) - (TERRAIN_BASE as int)) / (
    FIXED_SCALE as int)
}

/// The tile generated at `row` in a column whose ground height is `h`:
/// air above the surface, then downward one cell of grass, one of grassy
/// dirt, eight of dirt, and stone to the world floor.
pub open spec fn gen_tile(h: int, row: int) -> Option<Tile> {
    if row > h {
        None
    } else {
        let top = if h < (CHUNK_HEIGHT as int) - 1 {
            h
        } else {
            (CHUNK_HEIGHT as int) - 1
        };
        let depth = top - row;
        if depth == 0 {
            Some(Tile::Grass)
        } else if depth == 1 {
            Some(Tile::GrassyDirt)
        } else if depth < 10 {
            Some(Tile::Dirt)
        } else {
            Some(Tile::Stone)
        }
    }
}

/// The full column-major grid of a freshly generated chunk anchored at
/// world column `wp`: cell `i` lies in column `i / CHUNK_HEIGHT` and row
/// `i % CHUNK_HEIGHT`.
pub open spec fn gen_chunk(seed: u32, wp: int) -> Seq<Option<Tile>> {
    Seq::new(
        CHUNK_AREA as nat,
        |i: int|
            gen_tile(
                spec_surface_height(seed, wp + i / (CHUNK_HEIGHT as int)),
                i % (CHUNK_HEIGHT as int),
            ),
    )
}

/// The place of a generated cell in the strata order, world floor first:
/// stone, dirt, grassy dirt, grass, then air above; flowers are not part
/// of generation.
pub open spec fn strata_rank(t: Option<Tile>) -> int {
    match t {
        Some(Tile::Stone) => 0,
        Some(Tile::Dirt) => 1,
        Some(Tile::GrassyDirt) => 2,
        Some(Tile::Grass) => 3,
        Some(Tile::Flower(_)) => 4,
        None => 5,
    }
}

/// Strata ordering: scanning a generated column from the world floor
/// upward never steps backward through stone, dirt, grassy dirt, grass,
/// air — for any ground height; and generation never places a flower.
pub proof fn lemma_strata_order(h: int, r1: int, r2: int)
    requires
        0 <= r1 <= r2 < CHUNK_HEIGHT as int,
    ensures
        strata_rank(gen_tile(h, r1)) <= strata_rank(gen_tile(h, r2)),
        !(gen_tile(h, r1) matches Some(Tile::Flower(_))),
{
}

/// Determinism: generation is a pure function of the seed and the world
/// position, so two chunks generated at the same place agree cell for
/// cell.
pub proof fn lemma_generation_deterministic(seed: u32, a: Chunk, b: Chunk)
    requires
        a@ == gen_chunk(seed, a.world_position as int),
        b@ == gen_chunk(seed, b.world_position as int),
        a.world_position == b.world_position,
    ensures
        a@ == b@,
{
}

/// The ground height of one world column, computed from the noise field.
pub fn surface_height(noise: &NoiseField, world_col: i64) -> (h: usize)
    requires
        -WORLD_LIMIT <= world_col <= WORLD_LIMIT,
    ensures
        h as int == spec_surface_height(noise@, world_col as int),
        TERRAIN_BASE <= h <= TERRAIN_HEIGHT,
{
    let v: Fixed = noise.sample(Fixed { raw: world_col * NOISE_SAMPLE_STEP });
    let sum: i64 = v.raw + FIXED_SCALE;
    let unit: i64 = ((sum as u64) / 2u64) as i64;
    proof {
        assert(unit == (sum as int) / 2);
        assert(0 <= unit <= FIXED_SCALE as int);
        assert(0 <= unit * (((TERRAIN_HEIGHT as int) - (TERRAIN_BASE as int))) <= ((
        TERRAIN_HEIGHT as int) - (TERRAIN_BASE as int)) * (FIXED_SCALE as int))
            by (nonlinear_arith)
            requires
                0 <= unit <= FIXED_SCALE as int,
                FIXED_SCALE == 3600,
                TERRAIN_HEIGHT == 196,
                TERRAIN_BASE == 128,
        {}
    }
    let scaled: i64 = unit * ((TERRAIN_HEIGHT - TERRAIN_BASE) as i64);
    let lvl: i64 = ((scaled as u64) / (FIXED_SCALE as u64)) as i64;
    proof {
        assert(lvl == (scaled as int) / (FIXED_SCALE as int));
        assert(0 <= lvl <= ((TERRAIN_HEIGHT as int) - (TERRAIN_BASE as int))) by (nonlinear_arith)
            requires
                lvl == (scaled as int) / (FIXED_SCALE as int),
                0 <= scaled as int
                    <= ((TERRAIN_HEIGHT as int) - (TERRAIN_BASE as int)) * (FIXED_SCALE as int),
                FIXED_SCALE == 3600,
                TERRAIN_HEIGHT == 196,
                TERRAIN_BASE == 128,
        {}
    }
    TERRAIN_BASE + (lvl as usize)
}

/// One vertical slice of the world: the unit of generation and streaming.
pub struct Chunk {
    pub world_position: Dim,
    pub tiles: Vec<Option<Tile>>,
}

impl View for Chunk {
    type V = Seq<Option<Tile>>;

    open spec fn view(&self) -> Seq<Option<Tile>> {
        self.tiles@
    }
}

impl Chunk {
    /// Structural invariant: a full grid, anchored on a chunk boundary,
    /// within the world's working range.
    pub open spec fn wf(self) -> bool {
        &&& self.tiles@.len() == CHUNK_AREA
        &&& self.world_position % (CHUNK_WIDTH as i64) == 0
        &&& -WORLD_LIMIT <= self.world_position
        &&& self.world_position + (CHUNK_WIDTH as int) <= WORLD_LIMIT
    }

    /// Whether a world coordinate falls inside this chunk's grid.
    pub open spec fn spec_covers(self, coord: Coord) -> bool {
        &&& 0 <= coord.row < CHUNK_HEIGHT as int
        &&& self.world_position <= coord.col < self.world_position + (CHUNK_WIDTH as int)
    }

    /// The flat grid index of a covered world coordinate.
    pub open spec fn spec_index_of(self, coord: Coord) -> int {
        (coord.col - self.world_position) * (CHUNK_HEIGHT as int) + coord.row
    }

    /// The tile at a world coordinate: air for any coordinate outside the
    /// grid.
    pub open spec fn spec_tile(self, coord: Coord) -> Option<Tile> {
        if self.spec_covers(coord) {
            self@[self.spec_index_of(coord)]
        } else {
            None
        }
    }

    /// An empty (all air) chunk anchored at `world_position`.
    pub fn new(world_position: Dim) -> (r: Chunk)
        requires
            world_position % (CHUNK_WIDTH as i64) == 0,
            -WORLD_LIMIT <= world_position,
            world_position + (CHUNK_WIDTH as int) <= WORLD_LIMIT,
        ensures
            r.wf(),
            r.world_position == world_position,
            forall|i: int| 0 <= i < CHUNK_AREA as int ==> r@[i] is None,
    {
        let mut tiles: Vec<Option<Tile>> = Vec::new();
        while tiles.len() < CHUNK_AREA
            invariant
                tiles@.len() <= CHUNK_AREA,
                forall|i: int| 0 <= i < tiles@.len() ==> tiles@[i] is None,
            decreases CHUNK_AREA - tiles@.len(),
        {
            tiles.push(None);
        }
        Chunk { world_position, tiles }
    }

    pub fn world_position(&self) -> (r: Dim)
        ensures
            r == self.world_position,
    {
        self.world_position
    }

    /// The chunk's streaming key: its world position divided by the chunk
    /// width.
    pub fn chunk_position(&self) -> (r: Dim)
        requires
            self.wf(),
        ensures
            r == self.world_position as int / (CHUNK_WIDTH as int),
            r * (CHUNK_WIDTH as int) == self.world_position,
    {
        let r: i64 = if self.world_position >= 0 {
            ((self.world_position as u64) / (CHUNK_WIDTH as u64)) as i64
        } else {
            -(((-self.world_position) as u64 / (CHUNK_WIDTH as u64)) as i64)
        };
        proof {
            lemma_exact_div16(self.world_position as int, r as int);
        }
        r
    }

    /// Fill the grid from the noise field: pure, replayable generation
    /// determined by the seed and the chunk's world position alone.
    pub fn regenerate(&mut self, noise: &NoiseField)
        requires
            old(self).wf(),
        ensures
            final(self).wf(),
            final(self).world_position == old(self).world_position,
            final(self)@ == gen_chunk(noise@, old(self).world_position as int),
    {
        let wp: i64 = self.world_position;
        let ghost target: Seq<Option<Tile>> = gen_chunk(noise@, wp as int);
        let mut col: usize = 0;
        while col < CHUNK_WIDTH
            invariant
                self.wf(),
                self.world_position == wp,
                -WORLD_LIMIT <= wp,
                wp + (CHUNK_WIDTH as int) <= WORLD_LIMIT,
                col <= CHUNK_WIDTH,
                target == gen_chunk(noise@, wp as int),
                forall|i: int|
                    0 <= i < col as int * (CHUNK_HEIGHT as int) ==> self.tiles@[i] == target[i],
            decreases CHUNK_WIDTH - col,
        {
            let h: usize = surface_height(noise, wp + col as i64);
            let mut row: usize = 0;
            while row < CHUNK_HEIGHT
                invariant
                    self.wf(),
                    self.world_position == wp,
                    col < CHUNK_WIDTH,
                    row <= CHUNK_HEIGHT,
                    h as int == spec_surface_height(noise@, wp as int + col as int),
                    target == gen_chunk(noise@, wp as int),
                    forall|i: int|
                        0 <= i < col as int * (CHUNK_HEIGHT as int) + row as int
                            ==> self.tiles@[i] == target[i],
                decreases CHUNK_HEIGHT - row,
            {
                let idx: usize = col * CHUNK_HEIGHT + row;
                proof {
                    assert(idx as int / (CHUNK_HEIGHT as int) == col as int && idx as int % (
                    CHUNK_HEIGHT as int) == row as int) by (nonlinear_arith)
                        requires
                            idx == col as int * (CHUNK_HEIGHT as int) + row as int,
                            0 <= row < CHUNK_HEIGHT as int,
                            0 <= col,
                            CHUNK_HEIGHT == 256,
                    {}
                    assert(col as int * (CHUNK_HEIGHT as int) + (CHUNK_HEIGHT as int) <= (
                    CHUNK_AREA as int)) by (nonlinear_arith)
                        requires
                            col < CHUNK_WIDTH as int,
                            CHUNK_WIDTH == 16,
                            CHUNK_HEIGHT == 256,
                            CHUNK_AREA == 4096,
                    {}
                }
                let t: Option<Tile> = gen_tile_at(h, row);
                self.tiles.set(idx, t);
                row = row + 1;
            }
            col = col + 1;
        }
        proof {
            assert(self.tiles@ =~= target);
        }
    }

    /// An element-for-element copy of this chunk.
    pub fn duplicate(&self) -> (r: Chunk)
        ensures
            r.world_position == self.world_position,
            r@ == self@,
            r.wf() == self.wf(),
    {
        let mut tiles: Vec<Option<Tile>> = Vec::new();
        let mut i: usize = 0;
        while i < self.tiles.len()
            invariant
                i <= self.tiles@.len(),
                tiles@.len() == i,
                forall|j: int| 0 <= j < i ==> tiles@[j] == self.tiles@[j],
            decreases self.tiles@.len() - i,
        {
            tiles.push(self.tiles[i]);
            i = i + 1;
        }
        proof {
            assert(tiles@ =~= self.tiles@);
        }
        Chunk { world_position: self.world_position, tiles }
    }

    /// The safe read path: the tile at a world coordinate, air if the
    /// coordinate lies outside this chunk.
    pub fn tile_at(&self, coord: Coord) -> (r: Option<Tile>)
        requires
            self.wf(),
        ensures
            r == self.spec_tile(coord),
    {
        if coord.row < 0 || coord.row >= CHUNK_HEIGHT as i64 {
            return None;
        }
        if coord.col < self.world_position || coord.col >= self.world_position
            + CHUNK_WIDTH as i64 {
            return None;
        }
        let local: i64 = coord.col - self.world_position;
        let idx: usize = (local as usize) * CHUNK_HEIGHT + (coord.row as usize);
        proof {
            assert(local as int * (CHUNK_HEIGHT as int) + (coord.row as int) < (CHUNK_AREA as int))
                by (nonlinear_arith)
                requires
                    0 <= local < CHUNK_WIDTH as int,
                    0 <= coord.row < CHUNK_HEIGHT as int,
                    CHUNK_WIDTH == 16,
                    CHUNK_HEIGHT == 256,
                    CHUNK_AREA == 4096,
            {}
        }
        self.tiles[idx]
    }

    /// The mutation path. Callers must confirm containment first: writing a
    /// coordinate this chunk does not cover is a contract violation, not a
    /// recoverable error.
    pub fn set_tile(&mut self, coord: Coord, t: Option<Tile>)
        requires
            old(self).wf(),
            old(self).spec_covers(coord),
        ensures
            final(self).wf(),
            final(self).world_position == old(self).world_position,
            final(self)@ == old(self)@.update(old(self).spec_index_of(coord), t),
    {
        let local: i64 = coord.col - self.world_position;
        let idx: usize = (local as usize) * CHUNK_HEIGHT + (coord.row as usize);
        proof {
            assert(local as int * (CHUNK_HEIGHT as int) + (coord.row as int) < (CHUNK_AREA as int))
                by (nonlinear_arith)
                requires
                    0 <= local < CHUNK_WIDTH as int,
                    0 <= coord.row < CHUNK_HEIGHT as int,
                    CHUNK_WIDTH == 16,
                    CHUNK_HEIGHT == 256,
                    CHUNK_AREA == 4096,
            {}
        }
        self.tiles.set(idx, t);
    }
}

/// The tile generated at `row` for ground height `h`, executable form.
fn gen_tile_at(h: usize, row: usize) -> (t: Option<Tile>)
    requires
        row < CHUNK_HEIGHT,
    ensures
        t == gen_tile(h as int, row as int),
{
    if row > h {
        None
    } else {
        let top: usize = if h < CHUNK_HEIGHT - 1 {
            h
        } else {
            CHUNK_HEIGHT - 1
        };
        let depth: usize = top - row;
        if depth == 0 {
            Some(Tile::Grass)
        } else if depth == 1 {
            Some(Tile::GrassyDirt)
        } else if depth < 10 {
            Some(Tile::Dirt)
        } else {
            Some(Tile::Stone)
        }
    }
}

/// For a multiple of the chunk width, the quotient computed by magnitude
/// division is the Euclidean quotient.
proof fn lemma_exact_div16(wp: int, r: int)
    requires
        wp % (CHUNK_WIDTH as int) == 0,
        wp >= 0 ==> r == wp / (CHUNK_WIDTH as int),
        wp < 0 ==> r == -((-wp) / (CHUNK_WIDTH as int)),
    ensures
        r == wp / (CHUNK_WIDTH as int),
        r * (CHUNK_WIDTH as int) == wp,
{
    let w: int = CHUNK_WIDTH as int;
    assert(w * (wp / w) + wp % w == wp) by (nonlinear_arith)
        requires
            w == 16,
    {}
    if wp < 0 {
        assert(w * ((-wp) / w) + (-wp) % w == -wp) by (nonlinear_arith)
            requires
                w == 16,
        {}
        assert((-wp) % w == 0) by (nonlinear_arith)
            requires
                w == 16,
                wp % w == 0,
                wp < 0,
        {}
        assert(w * r == wp) by (nonlinear_arith)
            requires
                w == 16,
                r == -((-wp) / w),
                w * ((-wp) / w) == -wp,
        {}
        assert(r == wp / w) by (nonlinear_arith)
            requires
                w == 16,
                w * r == wp,
                w * (wp / w) + wp % w == wp,
                wp % w == 0,
        {}
    }
}

} // verus!
