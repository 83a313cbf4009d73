//! The streaming terrain: the noise field plus the loaded chunks.
//!
//! At most one chunk is loaded per chunk position. A streaming pass keeps
//! the loaded set equal to a closed window of chunk positions centred on
//! the focus column; chunks that leave the window are dropped, chunks that
//! enter it are generated from the noise field. Tile lookup by world
//! coordinate degrades gracefully to "no tile" when no loaded chunk
//! covers the column — a deliberate linear scan over a set bounded by the
//! window size.

use vstd::prelude::*;

verus! {

use crate::fixed::lemma_neg_floor_div;
use crate::util::{Coord, Dim};
use crate::chunk::{Chunk, Tile, gen_chunk, CHUNK_WIDTH, CHUNK_HEIGHT, WORLD_LIMIT};
use crate::noise_field::NoiseField;

/// How many chunks stay loaded on each side of the focus chunk.
pub const CHUNKS_LOADED_RADIUS: Dim = 16;

/// Greatest focus column magnitude the streaming engine accepts; keeps the
/// whole window inside the world's working range.
pub const FOCUS_LIMIT: i64 = 0x3000_0000_0000;

/// The mathematical state of a terrain: its seed and, for each loaded
/// chunk position, the chunk's grid.
#[verifier::ext_equal]
pub struct TerrainModel {
    pub seed: u32,
    pub chunks: Map<int, Seq<Option<Tile>>>,
}

/// The chunk position whose chunk covers a world column.
pub open spec fn chunk_pos_of_col(col: int) -> int {
    col / (CHUNK_WIDTH as int)
}

impl TerrainModel {
    /// The tile at a world coordinate: air when no loaded chunk covers it.
    pub open spec fn tile_at(self, coord: Coord) -> Option<Tile> {
        let cp = chunk_pos_of_col(coord.col as int);
        if 0 <= coord.row < CHUNK_HEIGHT as int && self.chunks.dom().contains(cp) {
            self.chunks[cp][(coord.col - cp * (CHUNK_WIDTH as int)) * (CHUNK_HEIGHT as int)
                + coord.row]
        } else {
            None
        }
    }

    /// Whether some loaded chunk covers the coordinate: the precondition of
    /// the mutation path.
    pub open spec fn covered(self, coord: Coord) -> bool {
        &&& 0 <= coord.row < CHUNK_HEIGHT as int
        &&& self.chunks.dom().contains(chunk_pos_of_col(coord.col as int))
    }
}

/// The model after one streaming pass around `focus_col`: the loaded set
/// becomes exactly the closed window of chunk positions around the focus
/// chunk; positions already loaded keep their grid, the rest are freshly
/// generated.
pub open spec fn stream_model(m: TerrainModel, focus_col: int) -> TerrainModel {
    let center = chunk_pos_of_col(focus_col);
    TerrainModel {
        seed: m.seed,
        chunks: Map::new(
            |cp: int|
                center - (CHUNKS_LOADED_RADIUS as int) <= cp <= center + (
                CHUNKS_LOADED_RADIUS as int),
            |cp: int|
                if m.chunks.dom().contains(cp) {
                    m.chunks[cp]
                } else {
                    gen_chunk(m.seed, cp * (CHUNK_WIDTH as int))
                },
        ),
    }
}

/// Streaming is idempotent: a second pass around the same focus changes
/// nothing — every window position is already loaded and keeps its grid.
pub proof fn lemma_stream_idempotent(m: TerrainModel, focus_col: int)
    ensures
        stream_model(stream_model(m, focus_col), focus_col) == stream_model(m, focus_col),
{
    let m1 = stream_model(m, focus_col);
    let m2 = stream_model(m1, focus_col);
    assert(m2.chunks =~= m1.chunks);
    assert(m2 =~= m1);
}

/// The window invariant: after a streaming pass, the loaded chunk
/// positions are exactly the closed window around the focus chunk.
pub proof fn lemma_stream_window(m: TerrainModel, focus_col: int, cp: int)
    ensures
        stream_model(m, focus_col).chunks.dom().contains(cp) <==> chunk_pos_of_col(focus_col) - (
        CHUNKS_LOADED_RADIUS as int) <= cp <= chunk_pos_of_col(focus_col) + (
        CHUNKS_LOADED_RADIUS as int),
{
}

/// Containment: any coordinate outside all loaded chunks reads as air.
pub proof fn lemma_uncovered_reads_air(m: TerrainModel, coord: Coord)
    requires
        !m.covered(coord),
    ensures
        m.tile_at(coord) is None,
{
}

/// Every chunk of the sequence is well formed.
pub open spec fn chunks_wf(s: Seq<Chunk>) -> bool {
    forall|i: int| 0 <= i < s.len() ==> (#[trigger] s[i]).wf()
}

/// No two chunks of the sequence share a world position.
pub open spec fn chunks_distinct(s: Seq<Chunk>) -> bool {
    forall|i: int, j: int|
        0 <= i < s.len() && 0 <= j < s.len() && i != j ==> (#[trigger] s[i]).world_position != (
        #[trigger] s[j]).world_position
}

/// Whether the sequence holds a chunk at chunk position `cp`.
pub open spec fn chunks_have(s: Seq<Chunk>, cp: int) -> bool {
    exists|i: int|
        0 <= i < s.len() && (#[trigger] s[i]).world_position == cp * (CHUNK_WIDTH as int)
}

/// The index of the chunk at chunk position `cp`, where one exists.
pub open spec fn chunks_index_of(s: Seq<Chunk>, cp: int) -> int {
    choose|i: int|
        0 <= i < s.len() && (#[trigger] s[i]).world_position == cp * (CHUNK_WIDTH as int)
}

/// The map from loaded chunk positions to grids that a chunk sequence
/// denotes.
pub open spec fn chunks_map_of(s: Seq<Chunk>) -> Map<int, Seq<Option<Tile>>> {
    Map::new(|cp: int| chunks_have(s, cp), |cp: int| s[chunks_index_of(s, cp)]@)
}

/// For a well-formed, duplicate-free chunk sequence, the chunk at index
/// `i` is the unique chunk of its chunk position, and the denoted map
/// sends that position to its grid.
pub proof fn lemma_chunks_lookup(s: Seq<Chunk>, i: int)
    requires
        chunks_wf(s),
        chunks_distinct(s),
        0 <= i < s.len(),
    ensures
        ({
            let cp = s[i].world_position as int / (CHUNK_WIDTH as int);
            &&& cp * (CHUNK_WIDTH as int) == s[i].world_position
            &&& chunks_have(s, cp)
            &&& chunks_index_of(s, cp) == i
            &&& chunks_map_of(s).dom().contains(cp)
            &&& chunks_map_of(s)[cp] == s[i]@
        }),
{
    let w: int = CHUNK_WIDTH as int;
    let wp: int = s[i].world_position as int;
    let cp: int = wp / w;
    assert(s[i].wf());
    assert(w * (wp / w) + wp % w == wp) by (nonlinear_arith)
        requires
            w == 16,
    {}
    assert(cp * w == wp);
    assert(chunks_have(s, cp));
    let j: int = chunks_index_of(s, cp);
    assert(0 <= j < s.len() && s[j].world_position == cp * w);
    if j != i {
        assert(s[j].world_position != s[i].world_position);
        assert(false);
    }
}

/// A chunk anchored on a chunk boundary covers a column exactly when its
/// position is the column's chunk position.
pub proof fn lemma_covers_col(wp: int, col: int)
    requires
        wp % (CHUNK_WIDTH as int) == 0,
    ensures
        (wp <= col < wp + (CHUNK_WIDTH as int)) <==> wp == chunk_pos_of_col(col) * (
        CHUNK_WIDTH as int),
{
    let w: int = CHUNK_WIDTH as int;
    assert(w * (wp / w) + wp % w == wp) by (nonlinear_arith)
        requires
            w == 16,
    {}
    assert(w * (col / w) + col % w == col) by (nonlinear_arith)
        requires
            w == 16,
    {}
    let k: int = wp / w;
    assert(wp == w * k);
    if wp <= col < wp + w {
        assert(col / w == k) by (nonlinear_arith)
            requires
                w == 16,
                col == w * k + (col - w * k),
                0 <= col - w * k < w,
                w * (col / w) + col % w == col,
                0 <= col % w < w,
        {}
    }
    if wp == (col / w) * w {
        assert(wp <= col < wp + w);
    }
}

/// Every chunk position of the streaming window around an accepted focus
/// column denotes a chunk anchor within the world's working range.
pub proof fn lemma_focus_window_bounds(focus_col: int, cp: int)
    requires
        -(FOCUS_LIMIT as int) <= focus_col <= FOCUS_LIMIT as int,
        chunk_pos_of_col(focus_col) - (CHUNKS_LOADED_RADIUS as int) <= cp <= chunk_pos_of_col(
            focus_col,
        ) + (CHUNKS_LOADED_RADIUS as int),
    ensures
        (cp * (CHUNK_WIDTH as int)) % (CHUNK_WIDTH as int) == 0,
        -(WORLD_LIMIT as int) <= cp * (CHUNK_WIDTH as int),
        cp * (CHUNK_WIDTH as int) + (CHUNK_WIDTH as int) <= WORLD_LIMIT as int,
{
    let w: int = CHUNK_WIDTH as int;
    let center: int = chunk_pos_of_col(focus_col);
    assert(w * (focus_col / w) + focus_col % w == focus_col) by (nonlinear_arith)
        requires
            w == 16,
    {}
    assert(-(FOCUS_LIMIT as int) - w <= w * center <= FOCUS_LIMIT as int);
    assert((cp * w) % w == 0) by (nonlinear_arith)
        requires
            w == 16,
    {}
    assert(w * center - w * (CHUNKS_LOADED_RADIUS as int) <= w * cp <= w * center + w * (
    CHUNKS_LOADED_RADIUS as int)) by (nonlinear_arith)
        requires
            w == 16,
            center - (CHUNKS_LOADED_RADIUS as int) <= cp <= center + (CHUNKS_LOADED_RADIUS as int),
    {}
}

/// A window-shaped chunk sequence — one chunk for each position of the
/// window, in order — denotes exactly the window map it was built from.
proof fn lemma_window_map_eq(s: Seq<Chunk>, target: Map<int, Seq<Option<Tile>>>, start: int)
    requires
        s.len() == 2 * (CHUNKS_LOADED_RADIUS as int) + 1,
        forall|j: int| 0 <= j < s.len() ==> (#[trigger] s[j]).wf(),
        forall|j: int|
            0 <= j < s.len() ==> (#[trigger] s[j]).world_position == (start + j) * (
            CHUNK_WIDTH as int),
        forall|j: int| 0 <= j < s.len() ==> (#[trigger] s[j])@ == target[start + j],
        forall|cp: int|
            #[trigger] target.dom().contains(cp) <==> start <= cp < start + 2 * (
            CHUNKS_LOADED_RADIUS as int) + 1,
    ensures
        chunks_wf(s),
        chunks_distinct(s),
        chunks_map_of(s) =~= target,
{
    assert forall|i: int, j: int|
        0 <= i < s.len() && 0 <= j < s.len() && i != j implies (#[trigger] s[i]).world_position
        != (#[trigger] s[j]).world_position by {
        assert(s[i].world_position == (start + i) * (CHUNK_WIDTH as int));
        assert(s[j].world_position == (start + j) * (CHUNK_WIDTH as int));
        assert((start + i) * (CHUNK_WIDTH as int) != (start + j) * (CHUNK_WIDTH as int))
            by (nonlinear_arith)
            requires
                i != j,
                CHUNK_WIDTH == 16,
        {}
    }
    assert forall|cp: int| #[trigger]
        chunks_map_of(s).dom().contains(cp) implies target.dom().contains(cp) by {
        let i = chunks_index_of(s, cp);
        assert(0 <= i < s.len() && s[i].world_position == cp * (CHUNK_WIDTH as int));
        assert((start + i) * (CHUNK_WIDTH as int) == cp * (CHUNK_WIDTH as int));
        assert(start + i == cp) by (nonlinear_arith)
            requires
                (start + i) * (CHUNK_WIDTH as int) == cp * (CHUNK_WIDTH as int),
                CHUNK_WIDTH == 16,
        {}
    }
    assert forall|cp: int| #[trigger]
        target.dom().contains(cp) implies chunks_map_of(s).dom().contains(cp)
        && chunks_map_of(s)[cp] == target[cp] by {
        let j = cp - start;
        assert(0 <= j < s.len());
        assert(s[j].world_position == cp * (CHUNK_WIDTH as int));
        lemma_chunks_lookup(s, j);
        assert(s[j].world_position as int / (CHUNK_WIDTH as int) == cp) by (nonlinear_arith)
            requires
                s[j].world_position == cp * (CHUNK_WIDTH as int),
                CHUNK_WIDTH == 16,
        {}
    }
}

/// Replacing the chunk at index `i` by one with the same anchor and an
/// updated grid updates the denoted map at that chunk's position alone.
proof fn lemma_replace_chunk(pre: Seq<Chunk>, post: Seq<Chunk>, i: int)
    requires
        chunks_wf(pre),
        chunks_distinct(pre),
        0 <= i < pre.len(),
        post.len() == pre.len(),
        post[i].wf(),
        post[i].world_position == pre[i].world_position,
        forall|j: int| 0 <= j < pre.len() && j != i ==> post[j] == pre[j],
    ensures
        chunks_wf(post),
        chunks_distinct(post),
        chunks_map_of(post) =~= chunks_map_of(pre).insert(
            pre[i].world_position as int / (CHUNK_WIDTH as int),
            post[i]@,
        ),
{
    let w: int = CHUNK_WIDTH as int;
    let cpi: int = pre[i].world_position as int / w;
    lemma_chunks_lookup(pre, i);
    assert forall|j: int| 0 <= j < post.len() implies (#[trigger] post[j]).wf() by {
        if j != i {
            assert(post[j] == pre[j]);
            assert(pre[j].wf());
        }
    }
    assert forall|p: int, q: int|
        0 <= p < post.len() && 0 <= q < post.len() && p != q implies (
    #[trigger] post[p]).world_position != (#[trigger] post[q]).world_position by {
        assert(post[p].world_position == pre[p].world_position);
        assert(post[q].world_position == pre[q].world_position);
    }
    lemma_chunks_lookup(post, i);
    assert forall|cp: int| #[trigger]
        chunks_have(post, cp) implies chunks_have(pre, cp) by {
        let j = chunks_index_of(post, cp);
        assert(0 <= j < post.len() && post[j].world_position == cp * w);
        assert(pre[j].world_position == cp * w);
        assert(chunks_have(pre, cp));
    }
    assert forall|cp: int| #[trigger]
        chunks_have(pre, cp) implies chunks_have(post, cp) by {
        let j = chunks_index_of(pre, cp);
        assert(0 <= j < pre.len() && pre[j].world_position == cp * w);
        assert(post[j].world_position == cp * w);
        assert(chunks_have(post, cp));
    }
    assert forall|cp: int| #[trigger]
        chunks_map_of(post).dom().contains(cp) implies chunks_map_of(post)[cp] == chunks_map_of(
        pre,
    ).insert(cpi, post[i]@)[cp] by {
        let j = chunks_index_of(post, cp);
        assert(0 <= j < post.len() && post[j].world_position == cp * w);
        lemma_chunks_lookup(post, j);
        assert(post[j].world_position as int / w == cp) by (nonlinear_arith)
            requires
                post[j].world_position == cp * w,
                w == 16,
        {}
        assert(chunks_map_of(post)[cp] == post[j]@);
        if cp == cpi {
            assert(post[j].world_position == pre[i].world_position);
            if j != i {
                assert(pre[j].world_position == pre[i].world_position);
                assert(false);
            }
        } else {
            assert(j != i);
            lemma_chunks_lookup(pre, j);
            assert(pre[j].world_position as int / w == cp) by (nonlinear_arith)
                requires
                    pre[j].world_position == cp * w,
                    w == 16,
            {}
            assert(chunks_map_of(pre)[cp] == pre[j]@);
        }
    }
}

/// Find the index of the chunk at chunk position `cp`, if one is loaded.
fn find_chunk(chunks: &Vec<Chunk>, cp: i64) -> (r: Option<usize>)
    requires
        -(WORLD_LIMIT as int) <= cp * (CHUNK_WIDTH as int) <= WORLD_LIMIT as int,
    ensures
        match r {
            Some(i) => i < chunks@.len() && chunks@[i as int].world_position == cp * (
            CHUNK_WIDTH as int),
            None => !chunks_have(chunks@, cp as int),
        },
{
    let target: i64 = cp * (CHUNK_WIDTH as i64);
    let mut i: usize = 0;
    while i < chunks.len()
        invariant
            i <= chunks@.len(),
            target == cp * (CHUNK_WIDTH as int),
            forall|j: int| 0 <= j < i ==> (#[trigger] chunks@[j]).world_position != target,
        decreases chunks@.len() - i,
    {
        if chunks[i].world_position == target {
            return Some(i);
        }
        i = i + 1;
    }
    None
}

/// The terrain: one noise field for the process lifetime, and the loaded
/// chunks, at most one per chunk position.
pub struct Terrain {
    pub noise: NoiseField,
    pub chunks: Vec<Chunk>,
}

impl View for Terrain {
    type V = TerrainModel;

    open spec fn view(&self) -> TerrainModel {
        TerrainModel { seed: self.noise@, chunks: chunks_map_of(self.chunks@) }
    }
}

impl Terrain {
    /// Structural invariant: every loaded chunk is well formed and no two
    /// share a position.
    pub open spec fn wf(self) -> bool {
        &&& chunks_wf(self.chunks@)
        &&& chunks_distinct(self.chunks@)
    }

    /// A terrain with no loaded chunks, seeded once for the process
    /// lifetime.
    pub fn new(seed: u32) -> (r: Terrain)
        ensures
            r.wf(),
            r@.seed == seed,
            r@.chunks == Map::<int, Seq<Option<Tile>>>::empty(),
    {
        let r = Terrain { noise: NoiseField::new(seed), chunks: Vec::new() };
        proof {
            assert(r@.chunks =~= Map::<int, Seq<Option<Tile>>>::empty());
        }
        r
    }

    /// The safe read path: the tile at a world coordinate, air when no
    /// loaded chunk covers it.
    pub fn tile_at(&self, coord: Coord) -> (r: Option<Tile>)
        requires
            self.wf(),
        ensures
            r == self@.tile_at(coord),
    {
        let mut i: usize = 0;
        while i < self.chunks.len()
            invariant
                self.wf(),
                i <= self.chunks@.len(),
                forall|j: int|
                    0 <= j < i ==> !((#[trigger] self.chunks@[j]).world_position <= coord.col
                        < self.chunks@[j].world_position + (CHUNK_WIDTH as int)),
            decreases self.chunks@.len() - i,
        {
            proof {
                assert(self.chunks@[i as int].wf());
            }
            let wp: i64 = self.chunks[i].world_position;
            if wp <= coord.col && coord.col < wp + CHUNK_WIDTH as i64 {
                let r = self.chunks[i].tile_at(coord);
                proof {
                    lemma_covers_col(wp as int, coord.col as int);
                    lemma_chunks_lookup(self.chunks@, i as int);
                }
                return r;
            }
            i = i + 1;
        }
        proof {
            let cp = chunk_pos_of_col(coord.col as int);
            if self@.chunks.dom().contains(cp) {
                let j = chunks_index_of(self.chunks@, cp);
                assert(0 <= j < self.chunks@.len() && self.chunks@[j].world_position == cp * (
                CHUNK_WIDTH as int));
                assert(self.chunks@[j].wf());
                lemma_covers_col(self.chunks@[j].world_position as int, coord.col as int);
                assert(false);
            }
        }
        None
    }

    /// The mutation path. Callers must confirm coverage first, through the
    /// safe read path: writing a coordinate no loaded chunk covers is a
    /// contract violation, not a recoverable error.
    pub fn set_tile(&mut self, coord: Coord, t: Option<Tile>)
        requires
            old(self).wf(),
            old(self)@.covered(coord),
        ensures
            final(self).wf(),
            final(self)@.seed == old(self)@.seed,
            final(self)@.chunks == ({
                let cp = chunk_pos_of_col(coord.col as int);
                let idx = (coord.col - cp * (CHUNK_WIDTH as int)) * (CHUNK_HEIGHT as int)
                    + coord.row;
                old(self)@.chunks.insert(cp, old(self)@.chunks[cp].update(idx, t))
            }),
    {
        let ghost cp = chunk_pos_of_col(coord.col as int);
        let ghost pre = self.chunks@;
        let mut i: usize = 0;
        while i < self.chunks.len()
            invariant
                self.wf(),
                self.chunks@ == pre,
                pre == old(self).chunks@,
                self.noise == old(self).noise,
                cp == chunk_pos_of_col(coord.col as int),
                0 <= coord.row < CHUNK_HEIGHT as int,
                chunks_map_of(pre).dom().contains(cp),
                i <= self.chunks@.len(),
                forall|j: int|
                    0 <= j < i ==> !((#[trigger] self.chunks@[j]).world_position <= coord.col
                        < self.chunks@[j].world_position + (CHUNK_WIDTH as int)),
            decreases self.chunks@.len() - i,
        {
            proof {
                assert(self.chunks@[i as int].wf());
            }
            let wp: i64 = self.chunks[i].world_position;
            if wp <= coord.col && coord.col < wp + CHUNK_WIDTH as i64 {
                proof {
                    lemma_covers_col(wp as int, coord.col as int);
                    lemma_chunks_lookup(pre, i as int);
                }
                let mut c: Chunk = self.chunks[i].duplicate();
                c.set_tile(coord, t);
                self.chunks.set(i, c);
                proof {
                    lemma_replace_chunk(pre, self.chunks@, i as int);
                    assert(pre[i as int].world_position == cp * (CHUNK_WIDTH as int));
                    assert(pre[i as int].world_position as int / (CHUNK_WIDTH as int) == cp)
                        by (nonlinear_arith)
                        requires
                            pre[i as int].world_position == cp * (CHUNK_WIDTH as int),
                            CHUNK_WIDTH == 16,
                    {}
                    assert(chunks_map_of(pre)[cp] == pre[i as int]@);
                    assert(self.chunks@[i as int]@ == pre[i as int]@.update(
                        (coord.col - cp * (CHUNK_WIDTH as int)) * (CHUNK_HEIGHT as int)
                            + coord.row,
                        t,
                    ));
                    assert(chunks_map_of(self.chunks@) =~= chunks_map_of(pre).insert(
                        cp,
                        self.chunks@[i as int]@,
                    ));
                }
                return ;
            }
            i = i + 1;
        }
        proof {
            let j = chunks_index_of(self.chunks@, cp);
            assert(0 <= j < self.chunks@.len() && self.chunks@[j].world_position == cp * (
            CHUNK_WIDTH as int));
            assert(self.chunks@[j].wf());
            lemma_covers_col(self.chunks@[j].world_position as int, coord.col as int);
            assert(false);
        }
    }

    /// One streaming pass: make the loaded set exactly the window of chunk
    /// positions around the focus column, keeping the grids of chunks
    /// already loaded and generating the rest. Idempotent: a second pass
    /// with the same focus changes nothing.
    pub fn stream_around(&mut self, focus: Coord)
        requires
            old(self).wf(),
            -FOCUS_LIMIT <= focus.col <= FOCUS_LIMIT,
        ensures
            final(self).wf(),
            final(self)@ == stream_model(old(self)@, focus.col as int),
    {
        let center: i64 = chunk_pos_of(focus.col);
        let start: i64 = center - CHUNKS_LOADED_RADIUS;
        let count: i64 = 2 * CHUNKS_LOADED_RADIUS + 1;
        let ghost pre = self.chunks@;
        let ghost target = stream_model(self@, focus.col as int);
        let mut kept: Vec<Chunk> = Vec::new();
        let mut k: i64 = 0;
        while k < count
            invariant
                self.wf(),
                self.chunks@ == pre,
                0 <= k <= count,
                count == 2 * (CHUNKS_LOADED_RADIUS as int) + 1,
                center == chunk_pos_of_col(focus.col as int),
                start == center - (CHUNKS_LOADED_RADIUS as int),
                -FOCUS_LIMIT <= focus.col <= FOCUS_LIMIT,
                target == stream_model(self@, focus.col as int),
                kept@.len() == k,
                forall|j: int| 0 <= j < k ==> (#[trigger] kept@[j]).wf(),
                forall|j: int|
                    0 <= j < k ==> (#[trigger] kept@[j]).world_position == (start + j) * (
                    CHUNK_WIDTH as int),
                forall|j: int| 0 <= j < k ==> (#[trigger] kept@[j])@ == target.chunks[start + j],
            decreases count - k,
        {
            let cp: i64 = start + k;
            proof {
                lemma_focus_window_bounds(focus.col as int, cp as int);
            }
            let c: Chunk = match find_chunk(&self.chunks, cp) {
                Some(i) => {
                    proof {
                        lemma_chunks_lookup(pre, i as int);
                        assert(pre[i as int].world_position as int / (CHUNK_WIDTH as int) == cp)
                            by (nonlinear_arith)
                            requires
                                pre[i as int].world_position == cp * (CHUNK_WIDTH as int),
                                CHUNK_WIDTH == 16,
                        {}
                    }
                    self.chunks[i].duplicate()
                },
                None => {
                    let mut fresh = Chunk::new(cp * (CHUNK_WIDTH as i64));
                    fresh.regenerate(&self.noise);
                    fresh
                },
            };
            kept.push(c);
            k = k + 1;
        }
        self.chunks = kept;
        proof {
            lemma_window_map_eq(self.chunks@, target.chunks, start as int);
        }
    }
}

/// The chunk position of a world column, as executable floor division.
pub fn chunk_pos_of(col: i64) -> (r: i64)
    requires
        i64::MIN + (CHUNK_WIDTH as int) < col,
    ensures
        r == chunk_pos_of_col(col as int),
{
    if col >= 0 {
        ((col as u64) / (CHUNK_WIDTH as u64)) as i64
    } else {
        let m: u64 = (-col) as u64;
        let q: u64 = (m + (CHUNK_WIDTH as u64) - 1) / (CHUNK_WIDTH as u64);
        proof {
            lemma_neg_floor_div(col as int, q as int, CHUNK_WIDTH as int);
        }
        -(q as i64)
    }
}

} // verus!
