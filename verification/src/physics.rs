//! Per-tick physics: integration and entity-terrain collision resolution.
//!
//! Each fixed 1/60 s timestep, every non-static entity first integrates —
//! mode-specific horizontal response, then gravity, then the position
//! update, in that fixed order — and is then resolved against the terrain:
//! for each axis with motion, the cells just outside the box edge in the
//! direction of travel are swept, and on the first impassable cell the
//! entity either breaks the tile (above the breaking threshold) or snaps
//! flush against it and stops along that axis. Axes are resolved
//! independently, horizontal before vertical.

use vstd::prelude::*;

verus! {

use crate::fixed::{Fixed, FIXED_SCALE, fixed_mul, fixed_div, clamp_int, sign_int, abs_int};
use crate::util::{Coord, CoordReal, Dim};
use crate::chunk::{Tile, CHUNK_WIDTH, CHUNK_HEIGHT};
use crate::entity::{Entity, EntityModel, ModeModel, MovementMode, entity_models};
use crate::game::Game;
use crate::terrain::{Terrain, TerrainModel, chunk_pos_of_col};

/// The fixed timestep, 1/60 s, as a raw fixed-point factor.
pub const TIMESTEP: i64 = 60;

/// The force above which an impact destroys the blocking tile, as a raw
/// fixed-point value (60000 world units).
pub const BREAKING_FORCE: i64 = 216_000_000;

/// An axis-aligned bounding box, in tile units.
#[derive(Clone, Copy, PartialEq, Eq, Structural, Debug)]
pub struct AABB {
    pub width: Dim,
    pub height: Dim,
}

/// Whether the tile at a coordinate of the terrain model blocks movement;
/// air does not.
pub open spec fn impassable_at(t: TerrainModel, row: int, col: int) -> bool {
    match t.tile_at(Coord { row: row as i64, col: col as i64 }) {
        Some(tile) => tile.spec_impassable(),
        None => false,
    }
}

/// Whether any tile is impassable at `(row, col)` of the live terrain;
/// used by the collision sweeps.
pub fn tile_impassable(terrain: &Terrain, pos: Coord) -> (r: bool)
    requires
        terrain.wf(),
    ensures
        r == impassable_at(terrain@, pos.row as int, pos.col as int),
{
    match terrain.tile_at(pos) {
        Some(tile) => tile.is_impassable(),
        None => false,
    }
}

/// The impact velocity above which an entity of this mass destroys a tile
/// rather than stopping: `BREAKING_FORCE * TIMESTEP / mass`.
pub open spec fn breaking_velocity(e: EntityModel) -> int {
    fixed_div(fixed_mul(BREAKING_FORCE as int, TIMESTEP as int), e.mass)
}

/// The lowest row of `[lo, hi]` whose cell at column `col` is impassable.
pub open spec fn first_blocked_row(t: TerrainModel, col: int, lo: int, hi: int) -> Option<int>
    decreases hi + 1 - lo,
{
    if lo > hi {
        None
    } else if impassable_at(t, lo, col) {
        Some(lo)
    } else {
        first_blocked_row(t, col, lo + 1, hi)
    }
}

/// The leftmost column of `[lo, hi]` whose cell at row `row` is
/// impassable.
pub open spec fn first_blocked_col(t: TerrainModel, row: int, lo: int, hi: int) -> Option<int>
    decreases hi + 1 - lo,
{
    if lo > hi {
        None
    } else if impassable_at(t, row, lo) {
        Some(lo)
    } else {
        first_blocked_col(t, row, lo + 1, hi)
    }
}

/// A row sweep that found nothing in `[lo, r)` behaves like one starting
/// at `r`.
pub proof fn lemma_row_sweep_prefix(t: TerrainModel, col: int, lo: int, hi: int, r: int)
    requires
        lo <= r <= hi + 1,
        forall|j: int| lo <= j < r ==> !impassable_at(t, j, col),
    ensures
        first_blocked_row(t, col, lo, hi) == first_blocked_row(t, col, r, hi),
    decreases r - lo,
{
    if r > lo {
        assert(!impassable_at(t, lo, col));
        lemma_row_sweep_prefix(t, col, lo + 1, hi, r);
    }
}

/// A column sweep that found nothing in `[lo, c)` behaves like one
/// starting at `c`.
pub proof fn lemma_col_sweep_prefix(t: TerrainModel, row: int, lo: int, hi: int, c: int)
    requires
        lo <= c <= hi + 1,
        forall|j: int| lo <= j < c ==> !impassable_at(t, row, j),
    ensures
        first_blocked_col(t, row, lo, hi) == first_blocked_col(t, row, c, hi),
    decreases c - lo,
{
    if c > lo {
        assert(!impassable_at(t, row, lo));
        lemma_col_sweep_prefix(t, row, lo + 1, hi, c);
    }
}

/// The terrain model after the tile at `(row, col)` is destroyed.
pub open spec fn remove_tile(t: TerrainModel, row: int, col: int) -> TerrainModel {
    let cp = chunk_pos_of_col(col);
    let idx = (col - cp * (CHUNK_WIDTH as int)) * (CHUNK_HEIGHT as int) + row;
    TerrainModel { seed: t.seed, chunks: t.chunks.insert(cp, t.chunks[cp].update(idx, None)) }
}

/// The outcome of hitting the impassable cell `(row, col)` along one axis.
/// Above the breaking threshold the tile is destroyed and the velocity
/// falls by the threshold; at or below it, the entity snaps flush to the
/// tile grid along that axis, the velocity zeroes, and a downward hit
/// grounds the entity.
pub open spec fn hit_model(e: EntityModel, t: TerrainModel, row: int, col: int, vertical: bool) -> (
    EntityModel,
    TerrainModel,
) {
    let v = if vertical {
        e.vel_row
    } else {
        e.vel_col
    };
    let d = sign_int(v);
    let bv = breaking_velocity(e);
    if abs_int(v) > bv {
        let e2 = if vertical {
            EntityModel { vel_row: v - d * bv, ..e }
        } else {
            EntityModel { vel_col: v - d * bv, ..e }
        };
        (e2, remove_tile(t, row, col))
    } else if vertical {
        (
            EntityModel {
                pos_row: e.tile_row() * (FIXED_SCALE as int),
                vel_row: 0,
                on_ground: e.on_ground || d < 0,
                ..e
            },
            t,
        )
    } else {
        (EntityModel { pos_col: e.tile_col() * (FIXED_SCALE as int), vel_col: 0, ..e }, t)
    }
}

/// The horizontal pass: with horizontal motion, sweep the rows the box
/// covers at the column just outside the leading edge, and resolve the
/// first impassable cell found.
pub open spec fn axis_h_model(e: EntityModel, t: TerrainModel) -> (EntityModel, TerrainModel) {
    if e.vel_col == 0 {
        (e, t)
    } else {
        let col = if e.vel_col > 0 {
            e.right_edge() + 1
        } else {
            e.left_edge() - 1
        };
        match first_blocked_row(t, col, e.bottom_edge(), e.top_edge()) {
            None => (e, t),
            Some(row) => hit_model(e, t, row, col, false),
        }
    }
}

/// The vertical pass: with vertical motion, sweep the columns the box
/// covers at the row just outside the leading edge, and resolve the first
/// impassable cell found.
pub open spec fn axis_v_model(e: EntityModel, t: TerrainModel) -> (EntityModel, TerrainModel) {
    if e.vel_row == 0 {
        (e, t)
    } else {
        let row = if e.vel_row > 0 {
            e.top_edge() + 1
        } else {
            e.bottom_edge() - 1
        };
        match first_blocked_col(t, row, e.left_edge(), e.right_edge()) {
            None => (e, t),
            Some(col) => hit_model(e, t, row, col, true),
        }
    }
}

/// Full collision resolution of one entity: entities without a box are
/// not resolved; with one, the grounded flag resets and the axes resolve
/// in fixed order, horizontal then vertical.
pub open spec fn collide_model(e: EntityModel, t: TerrainModel) -> (EntityModel, TerrainModel) {
    if e.hitbox is None {
        (e, t)
    } else {
        let e0 = EntityModel { on_ground: false, ..e };
        let (e1, t1) = axis_h_model(e0, t);
        axis_v_model(e1, t1)
    }
}

/// The mode-specific horizontal response: walking entities set their
/// horizontal velocity from the controls — zero without input, otherwise
/// accelerated by the walking speed and clamped to it — and jump when
/// grounded and asked to.
pub open spec fn walk_model(e: EntityModel) -> EntityModel {
    match e.mode {
        ModeModel::Walking { walking_speed, jump_impulse } => {
            let dir = e.controls.spec_horizontal_direction();
            let vc = if dir == 0 {
                0
            } else {
                clamp_int(e.vel_col + walking_speed * dir, -walking_speed, walking_speed)
            };
            let vr = if e.controls.jump && e.on_ground {
                e.vel_row + jump_impulse
            } else {
                e.vel_row
            };
            EntityModel { vel_col: vc, vel_row: vr, ..e }
        },
        _ => e,
    }
}

/// The universal gravity and position update: the velocity gains
/// `gravity * timestep * gravity_scale` and the position gains
/// `velocity * timestep`.
pub open spec fn gravity_model(e: EntityModel, g_row: int, g_col: int) -> EntityModel {
    let ar = fixed_mul(fixed_mul(g_row, TIMESTEP as int), e.gravity_scale);
    let ac = fixed_mul(fixed_mul(g_col, TIMESTEP as int), e.gravity_scale);
    let vr = e.vel_row + ar;
    let vc = e.vel_col + ac;
    EntityModel {
        vel_row: vr,
        vel_col: vc,
        pos_row: e.pos_row + fixed_mul(vr, TIMESTEP as int),
        pos_col: e.pos_col + fixed_mul(vc, TIMESTEP as int),
        ..e
    }
}

/// One integration step: static entities are untouched; walking entities
/// first apply their horizontal response; dynamic and walking entities
/// then fall and move. The order — mode response, then gravity, then the
/// position update — is fixed.
pub open spec fn integrate_model(e: EntityModel, g_row: int, g_col: int) -> EntityModel {
    match e.mode {
        ModeModel::Static => e,
        ModeModel::Dynamic => gravity_model(e, g_row, g_col),
        ModeModel::Walking { .. } => gravity_model(walk_model(e), g_row, g_col),
    }
}

/// The mode-specific horizontal response, in place.
fn walk_entity(e: &mut Entity)
    requires
        old(e)@.wf(),
        old(e)@.bounded(),
    ensures
        final(e)@ == walk_model(old(e)@),
{
    match e.movement_mode {
        MovementMode::Static => {
        },
        MovementMode::Dynamic => {
        },
        MovementMode::Walking { walking_speed, jump_impulse } => {
            let dir: i64 = e.movement_controls.horizontal_direction();
            if dir == 0 {
                e.velocity.col = Fixed { raw: 0 };
            } else {
                let delta: i64 = if dir > 0 {
                    walking_speed.raw
                } else {
                    -walking_speed.raw
                };
                let v: i64 = e.velocity.col.raw + delta;
                let clamped: i64 = if v < -walking_speed.raw {
                    -walking_speed.raw
                } else if v > walking_speed.raw {
                    walking_speed.raw
                } else {
                    v
                };
                e.velocity.col = Fixed { raw: clamped };
            }
            proof {
                // Pin the clamped column velocity to the model before the
                // jump response changes the row.
                assert(e@.vel_col == walk_model(old(e)@).vel_col);
            }
            if e.movement_controls.jump && e.on_ground {
                e.velocity.row = Fixed { raw: e.velocity.row.raw + jump_impulse.raw };
            }
        },
    }
    proof {
        lemma_entity_model_eq(e@, walk_model(old(e)@));
    }
}

/// Integrate one entity in place.
pub fn integrate_entity(e: &mut Entity, gravity: CoordReal)
    requires
        old(e)@.wf(),
        old(e)@.bounded(),
        -0x4000_0000 <= gravity.row.raw <= 0x4000_0000,
        -0x4000_0000 <= gravity.col.raw <= 0x4000_0000,
    ensures
        final(e)@ == integrate_model(old(e)@, gravity.row.raw as int, gravity.col.raw as int),
        final(e)@.wf(),
        final(e)@.within(0x200_0000_0000_0000),
{
    match e.movement_mode {
        MovementMode::Static => {
            return ;
        },
        _ => {
        },
    }
    walk_entity(e);
    let dt: Fixed = Fixed { raw: TIMESTEP };
    let ar: Fixed = accel_axis(gravity.row, dt, e.gravity_scale);
    let ac: Fixed = accel_axis(gravity.col, dt, e.gravity_scale);
    e.velocity.row = Fixed { raw: e.velocity.row.raw + ar.raw };
    e.velocity.col = Fixed { raw: e.velocity.col.raw + ac.raw };
    let step_row: Fixed = move_step(e.velocity.row, dt);
    let step_col: Fixed = move_step(e.velocity.col, dt);
    e.position.row = Fixed { raw: e.position.row.raw + step_row.raw };
    e.position.col = Fixed { raw: e.position.col.raw + step_col.raw };
}

/// `gravity_axis * timestep * gravity_scale`, the per-tick velocity gain.
fn accel_axis(g: Fixed, dt: Fixed, gs: Fixed) -> (r: Fixed)
    requires
        -0x4000_0000 <= g.raw <= 0x4000_0000,
        -0x4000_0000 <= gs.raw <= 0x4000_0000,
        dt.raw == TIMESTEP,
    ensures
        r.raw == fixed_mul(fixed_mul(g.raw as int, TIMESTEP as int), gs.raw as int),
        -0x80_0000_0000_0000 <= r.raw <= 0x80_0000_0000_0000,
{
    proof {
        crate::fixed::lemma_fixed_mul_bound(g.raw as int, TIMESTEP as int, 0x4000_0000, 64);
    }
    let a1: Fixed = g.mul(dt);
    proof {
        crate::fixed::lemma_fixed_mul_bound(
            a1.raw as int,
            gs.raw as int,
            (0x4000_0000 * 64) as int,
            0x4000_0000,
        );
        assert(abs_int(fixed_mul(a1.raw as int, gs.raw as int)) * (FIXED_SCALE as int) <= (
        0x4000_0000 * 64) * 0x4000_0000);
    }
    a1.mul(gs)
}

/// `velocity_axis * timestep`, the per-tick position gain.
fn move_step(v: Fixed, dt: Fixed) -> (r: Fixed)
    requires
        -0x200_0000_0000_0000 <= v.raw <= 0x200_0000_0000_0000,
        dt.raw == TIMESTEP,
    ensures
        r.raw == fixed_mul(v.raw as int, TIMESTEP as int),
        -0x200_0000_0000_0000 <= r.raw <= 0x200_0000_0000_0000,
{
    proof {
        crate::fixed::lemma_fixed_mul_bound(v.raw as int, TIMESTEP as int, 0x200_0000_0000_0000, 64);
    }
    v.mul(dt)
}

/// Two entity models that agree on every field are equal.
pub proof fn lemma_entity_model_eq(a: EntityModel, b: EntityModel)
    requires
        a.pos_row == b.pos_row,
        a.pos_col == b.pos_col,
        a.vel_row == b.vel_row,
        a.vel_col == b.vel_col,
        a.gravity_scale == b.gravity_scale,
        a.mass == b.mass,
        a.hitbox == b.hitbox,
        a.mode == b.mode,
        a.controls == b.controls,
        a.on_ground == b.on_ground,
        a.deletion_flag == b.deletion_flag,
        a.is_player == b.is_player,
    ensures
        a == b,
{
    assert(a =~= b);
}

impl Entity {
    /// The breaking threshold of this entity against a tile: the tile is
    /// kept for a later notion of durability.
    fn breaking_velocity_of(&self, _tile: &Tile) -> (r: Fixed)
        requires
            self@.wf(),
        ensures
            r.raw == breaking_velocity(self@),
            0 <= r.raw <= 0x4_0000_0000,
    {
        let force: Fixed = Fixed { raw: BREAKING_FORCE }.mul(Fixed { raw: TIMESTEP });
        proof {
            crate::fixed::lemma_div_trunc_abs(
                force.raw as int * (FIXED_SCALE as int),
                self.mass.raw as int,
            );
        }
        force.div(self.mass)
    }

    /// Resolve a hit against the impassable cell `cell` along one axis:
    /// break the tile above the threshold, else snap flush and stop.
    #[verifier::rlimit(60)]
    fn process_collision(&mut self, terrain: &mut Terrain, cell: Coord, vertical: bool)
        requires
            old(self)@.wf(),
            old(self)@.within((0x200_0000_0000_0000 + 0x2000) as int),
            old(terrain).wf(),
            impassable_at(old(terrain)@, cell.row as int, cell.col as int),
            vertical ==> old(self)@.vel_row != 0,
            !vertical ==> old(self)@.vel_col != 0,
        ensures
            final(terrain).wf(),
            (final(self)@, final(terrain)@) == hit_model(
                old(self)@,
                old(terrain)@,
                cell.row as int,
                cell.col as int,
                vertical,
            ),
            final(self)@.wf(),
            abs_int(final(self)@.pos_row) <= abs_int(old(self)@.pos_row) + 0x1000,
            abs_int(final(self)@.pos_col) <= abs_int(old(self)@.pos_col) + 0x1000,
            abs_int(final(self)@.vel_row) <= abs_int(old(self)@.vel_row),
            abs_int(final(self)@.vel_col) <= abs_int(old(self)@.vel_col),
    {
        let tile: Tile = match terrain.tile_at(cell) {
            Some(tile) => tile,
            None => {
                proof {
                    assert(false);
                }
                Tile::Stone
            },
        };
        let bv: Fixed = self.breaking_velocity_of(&tile);
        let v: i64 = if vertical {
            self.velocity.row.raw
        } else {
            self.velocity.col.raw
        };
        let va: i64 = if v < 0 {
            -v
        } else {
            v
        };
        if va > bv.raw {
            let nv: i64 = if v > 0 {
                v - bv.raw
            } else {
                v + bv.raw
            };
            if vertical {
                self.velocity.row = Fixed { raw: nv };
            } else {
                self.velocity.col = Fixed { raw: nv };
            }
            proof {
                assert(old(terrain)@.covered(cell));
            }
            terrain.set_tile(cell, None);
            proof {
                assert(final(terrain)@ =~= remove_tile(
                    old(terrain)@,
                    cell.row as int,
                    cell.col as int,
                ));
                lemma_entity_model_eq(
                    self@,
                    hit_model(
                        old(self)@,
                        old(terrain)@,
                        cell.row as int,
                        cell.col as int,
                        vertical,
                    ).0,
                );
            }
        } else {
            proof {
                crate::fixed::lemma_round_bound(old(self)@.pos_row);
                crate::fixed::lemma_round_bound(old(self)@.pos_col);
            }
            if vertical {
                if v < 0 {
                    let b: i64 = self.bottom_edge();
                    self.set_bottom_edge(b);
                    self.velocity.row = Fixed { raw: 0 };
                    self.on_ground = true;
                } else {
                    let tp: i64 = self.top_edge();
                    self.set_top_edge(tp);
                    self.velocity.row = Fixed { raw: 0 };
                }
            } else {
                if v > 0 {
                    let rr: i64 = self.right_edge();
                    self.set_right_edge(rr);
                } else {
                    let ll: i64 = self.left_edge();
                    self.set_left_edge(ll);
                }
                self.velocity.col = Fixed { raw: 0 };
            }
            proof {
                lemma_entity_model_eq(
                    self@,
                    hit_model(
                        old(self)@,
                        old(terrain)@,
                        cell.row as int,
                        cell.col as int,
                        vertical,
                    ).0,
                );
            }
        }
    }

    /// The horizontal pass: sweep the rows the box covers at the column
    /// just outside the leading edge, and resolve the first impassable
    /// cell found.
    fn process_horizontal_collision(&mut self, terrain: &mut Terrain)
        requires
            old(self)@.wf(),
            old(self)@.within((0x200_0000_0000_0000 + 0x1000) as int),
            old(terrain).wf(),
        ensures
            final(terrain).wf(),
            (final(self)@, final(terrain)@) == axis_h_model(old(self)@, old(terrain)@),
            final(self)@.wf(),
            abs_int(final(self)@.pos_row) <= abs_int(old(self)@.pos_row) + 0x1000,
            abs_int(final(self)@.pos_col) <= abs_int(old(self)@.pos_col) + 0x1000,
            abs_int(final(self)@.vel_row) <= abs_int(old(self)@.vel_row),
            abs_int(final(self)@.vel_col) <= abs_int(old(self)@.vel_col),
    {
        if self.velocity.col.raw == 0 {
            return ;
        }
        let bottom: i64 = self.bottom_edge();
        let top: i64 = self.top_edge();
        let c: i64 = if self.velocity.col.raw > 0 {
            self.right_edge() + 1
        } else {
            self.left_edge() - 1
        };
        let mut r: i64 = bottom;
        while r <= top
            invariant
                *self == *old(self),
                *terrain == *old(terrain),
                self@.wf(),
                self@.within((0x200_0000_0000_0000 + 0x1000) as int),
                terrain.wf(),
                self@.vel_col != 0,
                bottom == self@.bottom_edge(),
                top == self@.top_edge(),
                c == if self@.vel_col > 0 {
                    self@.right_edge() + 1
                } else {
                    self@.left_edge() - 1
                },
                bottom <= r,
                forall|j: int| bottom <= j < r ==> !impassable_at(terrain@, j, c as int),
            decreases top + 1 - r,
        {
            if tile_impassable(terrain, Coord { row: r, col: c }) {
                proof {
                    lemma_row_sweep_prefix(terrain@, c as int, bottom as int, top as int, r as int);
                }
                self.process_collision(terrain, Coord { row: r, col: c }, false);
                return ;
            }
            r = r + 1;
        }
        proof {
            if bottom <= top {
                lemma_row_sweep_prefix(
                    terrain@,
                    c as int,
                    bottom as int,
                    top as int,
                    top as int + 1,
                );
            }
        }
    }

    /// The vertical pass: sweep the columns the box covers at the row just
    /// outside the leading edge, and resolve the first impassable cell
    /// found.
    fn process_vertical_collision(&mut self, terrain: &mut Terrain)
        requires
            old(self)@.wf(),
            old(self)@.within((0x200_0000_0000_0000 + 0x2000) as int),
            old(terrain).wf(),
        ensures
            final(terrain).wf(),
            (final(self)@, final(terrain)@) == axis_v_model(old(self)@, old(terrain)@),
            final(self)@.wf(),
            abs_int(final(self)@.pos_row) <= abs_int(old(self)@.pos_row) + 0x1000,
            abs_int(final(self)@.pos_col) <= abs_int(old(self)@.pos_col) + 0x1000,
            abs_int(final(self)@.vel_row) <= abs_int(old(self)@.vel_row),
            abs_int(final(self)@.vel_col) <= abs_int(old(self)@.vel_col),
    {
        if self.velocity.row.raw == 0 {
            return ;
        }
        let left: i64 = self.left_edge();
        let right: i64 = self.right_edge();
        let rr: i64 = if self.velocity.row.raw > 0 {
            self.top_edge() + 1
        } else {
            self.bottom_edge() - 1
        };
        let mut cc: i64 = left;
        while cc <= right
            invariant
                *self == *old(self),
                *terrain == *old(terrain),
                self@.wf(),
                self@.within((0x200_0000_0000_0000 + 0x2000) as int),
                terrain.wf(),
                self@.vel_row != 0,
                left == self@.left_edge(),
                right == self@.right_edge(),
                rr == if self@.vel_row > 0 {
                    self@.top_edge() + 1
                } else {
                    self@.bottom_edge() - 1
                },
                left <= cc,
                forall|j: int| left <= j < cc ==> !impassable_at(terrain@, rr as int, j),
            decreases right + 1 - cc,
        {
            if tile_impassable(terrain, Coord { row: rr, col: cc }) {
                proof {
                    lemma_col_sweep_prefix(terrain@, rr as int, left as int, right as int, cc as int);
                }
                self.process_collision(terrain, Coord { row: rr, col: cc }, true);
                return ;
            }
            cc = cc + 1;
        }
        proof {
            if left <= right {
                lemma_col_sweep_prefix(
                    terrain@,
                    rr as int,
                    left as int,
                    right as int,
                    right as int + 1,
                );
            }
        }
    }

    /// Full collision resolution of this entity against the terrain.
    fn collide(&mut self, terrain: &mut Terrain)
        requires
            old(self)@.wf(),
            old(self)@.within((0x200_0000_0000_0000 + 0x1000) as int),
            old(terrain).wf(),
        ensures
            final(terrain).wf(),
            (final(self)@, final(terrain)@) == collide_model(old(self)@, old(terrain)@),
            final(self)@.wf(),
            abs_int(final(self)@.pos_row) <= abs_int(old(self)@.pos_row) + 0x2000,
            abs_int(final(self)@.pos_col) <= abs_int(old(self)@.pos_col) + 0x2000,
            abs_int(final(self)@.vel_row) <= abs_int(old(self)@.vel_row),
            abs_int(final(self)@.vel_col) <= abs_int(old(self)@.vel_col),
    {
        if self.movement_hitbox.is_none() {
            return ;
        }
        self.on_ground = false;
        proof {
            lemma_entity_model_eq(self@, EntityModel { on_ground: false, ..old(self)@ });
        }
        self.process_horizontal_collision(terrain);
        self.process_vertical_collision(terrain);
    }
}

/// One integration step applied to every entity.
pub open spec fn integrate_all(es: Seq<EntityModel>, g_row: int, g_col: int) -> Seq<EntityModel> {
    Seq::new(es.len(), |i: int| integrate_model(es[i], g_row, g_col))
}

/// Collision resolution applied to every entity in order, each against
/// the terrain left by the previous one.
pub open spec fn collide_all(es: Seq<EntityModel>, t: TerrainModel) -> (
    Seq<EntityModel>,
    TerrainModel,
)
    decreases es.len(),
{
    if es.len() == 0 {
        (es, t)
    } else {
        let (e1, t1) = collide_model(es[0], t);
        let (rest, t2) = collide_all(es.subrange(1, es.len() as int), t1);
        (seq![e1] + rest, t2)
    }
}

impl Game {
    /// Integrate every entity: the mode-specific response, gravity, and
    /// the position update, at the fixed timestep.
    pub fn update_physics_bodies(&mut self)
        requires
            old(self).wf(),
            old(self).entities_within(0x100_0000_0000_0000),
        ensures
            final(self).wf(),
            entity_models(final(self).entities@) == integrate_all(
                entity_models(old(self).entities@),
                old(self).gravity.row.raw as int,
                old(self).gravity.col.raw as int,
            ),
            final(self).entities_within(0x200_0000_0000_0000),
            final(self).camera == old(self).camera,
            final(self).terrain == old(self).terrain,
            final(self).gravity == old(self).gravity,
            final(self).exit_requested == old(self).exit_requested,
    {
        let g: CoordReal = self.gravity;
        let n: usize = self.entities.len();
        let mut i: usize = 0;
        while i < n
            invariant
                n == self.entities@.len(),
                old(self).entities@.len() == n,
                i <= n,
                old(self).wf(),
                old(self).entities_within(0x100_0000_0000_0000),
                g == old(self).gravity,
                self.camera == old(self).camera,
                self.terrain == old(self).terrain,
                self.gravity == old(self).gravity,
                self.exit_requested == old(self).exit_requested,
                forall|j: int| i <= j < n ==> self.entities@[j] == old(self).entities@[j],
                forall|j: int|
                    0 <= j < i ==> (#[trigger] self.entities@[j])@ == integrate_model(
                        old(self).entities@[j]@,
                        g.row.raw as int,
                        g.col.raw as int,
                    ),
                forall|j: int|
                    0 <= j < i ==> (#[trigger] self.entities@[j])@.wf() && self.entities@[j]@.within(
                        0x200_0000_0000_0000,
                    ),
            decreases n - i,
        {
            proof {
                assert(self.entities@[i as int] == old(self).entities@[i as int]);
                assert(old(self).entities@[i as int]@.wf());
                assert(old(self).entities@[i as int]@.within(0x100_0000_0000_0000));
            }
            integrate_entity(&mut self.entities[i], g);
            i = i + 1;
        }
        proof {
            assert(entity_models(self.entities@) =~= integrate_all(
                entity_models(old(self).entities@),
                g.row.raw as int,
                g.col.raw as int,
            ));
        }
    }

    /// Resolve every entity against the terrain, in order, committing the
    /// results; entities do not observe one another.
    pub fn solve_collisions(&mut self)
        requires
            old(self).wf(),
            old(self).entities_within((0x200_0000_0000_0000 + 0x1000) as int),
        ensures
            final(self).wf(),
            (entity_models(final(self).entities@), final(self).terrain@) == collide_all(
                entity_models(old(self).entities@),
                old(self).terrain@,
            ),
            final(self).entities_within((0x200_0000_0000_0000 + 0x3000) as int),
            final(self).camera == old(self).camera,
            final(self).gravity == old(self).gravity,
            final(self).exit_requested == old(self).exit_requested,
    {
        let ghost pre_es = entity_models(old(self).entities@);
        let ghost pre_t = old(self).terrain@;
        let n: usize = self.entities.len();
        proof {
            assert(pre_es.subrange(0, n as int) =~= pre_es);
            assert(entity_models(self.entities@.subrange(0, 0)) =~= Seq::<EntityModel>::empty());
            assert(Seq::<EntityModel>::empty() + collide_all(pre_es, pre_t).0 =~= collide_all(
                pre_es,
                pre_t,
            ).0);
        }
        let mut i: usize = 0;
        while i < n
            invariant
                n == self.entities@.len(),
                old(self).entities@.len() == n,
                pre_es.len() == n,
                i <= n,
                old(self).wf(),
                old(self).entities_within((0x200_0000_0000_0000 + 0x1000) as int),
                pre_es == entity_models(old(self).entities@),
                pre_t == old(self).terrain@,
                self.terrain.wf(),
                self.camera == old(self).camera,
                self.gravity == old(self).gravity,
                self.exit_requested == old(self).exit_requested,
                forall|j: int| i <= j < n ==> self.entities@[j] == old(self).entities@[j],
                forall|j: int|
                    0 <= j < i ==> (#[trigger] self.entities@[j])@.wf() && self.entities@[j]@.within(
                        (0x200_0000_0000_0000 + 0x3000) as int,
                    ),
                collide_all(pre_es, pre_t).0 == entity_models(
                    self.entities@.subrange(0, i as int),
                ) + collide_all(pre_es.subrange(i as int, n as int), self.terrain@).0,
                collide_all(pre_es, pre_t).1 == collide_all(
                    pre_es.subrange(i as int, n as int),
                    self.terrain@,
                ).1,
            decreases n - i,
        {
            let ghost t_cur = self.terrain@;
            let ghost sub = pre_es.subrange(i as int, n as int);
            proof {
                assert(self.entities@[i as int] == old(self).entities@[i as int]);
                assert(old(self).entities@[i as int]@.wf());
                assert(old(self).entities@[i as int]@.within(
                    (0x200_0000_0000_0000 + 0x1000) as int,
                ));
                assert(sub[0] == pre_es[i as int]);
                assert(pre_es[i as int] == self.entities@[i as int]@);
            }
            let ghost pre_prefix = self.entities@.subrange(0, i as int);
            Entity::collide(&mut self.entities[i], &mut self.terrain);
            proof {
                let (e1, t1) = collide_model(sub[0], t_cur);
                assert(self.entities@[i as int]@ == e1);
                assert(self.terrain@ == t1);
                assert(sub.subrange(1, sub.len() as int) =~= pre_es.subrange(
                    i as int + 1,
                    n as int,
                ));
                assert(collide_all(sub, t_cur).0 == seq![e1] + collide_all(
                    pre_es.subrange(i as int + 1, n as int),
                    t1,
                ).0);
                assert(collide_all(sub, t_cur).1 == collide_all(
                    pre_es.subrange(i as int + 1, n as int),
                    t1,
                ).1);
                assert(self.entities@.subrange(0, i as int) =~= pre_prefix);
                assert(self.entities@.subrange(0, i as int + 1) =~= pre_prefix.push(
                    self.entities@[i as int],
                ));
                assert(entity_models(self.entities@.subrange(0, i as int + 1)) =~= entity_models(
                    pre_prefix,
                ).push(e1));
                assert(entity_models(pre_prefix).push(e1) + collide_all(
                    pre_es.subrange(i as int + 1, n as int),
                    t1,
                ).0 =~= entity_models(pre_prefix) + (seq![e1] + collide_all(
                    pre_es.subrange(i as int + 1, n as int),
                    t1,
                ).0));
            }
            i = i + 1;
        }
        proof {
            assert(pre_es.subrange(n as int, n as int) =~= Seq::<EntityModel>::empty());
            assert(collide_all(pre_es.subrange(n as int, n as int), self.terrain@).0
                =~= Seq::<EntityModel>::empty());
            assert(self.entities@.subrange(0, n as int) =~= self.entities@);
            assert(entity_models(self.entities@) + Seq::<EntityModel>::empty() =~= entity_models(
                self.entities@,
            ));
        }
    }
}

/// Repeated integration, tick after tick.
pub open spec fn integrate_iter(e: EntityModel, g_row: int, g_col: int, n: nat) -> EntityModel
    decreases n,
{
    if n == 0 {
        e
    } else {
        integrate_model(integrate_iter(e, g_row, g_col, (n - 1) as nat), g_row, g_col)
    }
}

/// Gravity integration: a dynamic entity in free fall gains exactly the
/// per-tick gravity increment, `gravity * timestep * gravity_scale`, each
/// tick — so after `n` ticks its vertical velocity is `n` times that
/// increment beyond where it began, and its horizontal velocity is
/// untouched.
pub proof fn lemma_free_fall(e: EntityModel, g_row: int, n: nat)
    requires
        e.mode is Dynamic,
    ensures
        ({
            let r = integrate_iter(e, g_row, 0, n);
            let a = fixed_mul(fixed_mul(g_row, TIMESTEP as int), e.gravity_scale);
            &&& r.vel_row == e.vel_row + n * a
            &&& r.vel_col == e.vel_col
            &&& r.mode == e.mode
            &&& r.gravity_scale == e.gravity_scale
            &&& r.mass == e.mass
            &&& r.hitbox == e.hitbox
        }),
    decreases n,
{
    let a = fixed_mul(fixed_mul(g_row, TIMESTEP as int), e.gravity_scale);
    if n == 0 {
        assert(e.vel_row + 0 * a == e.vel_row) by (nonlinear_arith)
        {}
    } else {
        lemma_free_fall(e, g_row, (n - 1) as nat);
        let prev = integrate_iter(e, g_row, 0, (n - 1) as nat);
        assert(fixed_mul(0, TIMESTEP as int) == 0);
        assert(fixed_mul(0, prev.gravity_scale) == 0);
        assert((n - 1) * a + a == n * a) by (nonlinear_arith)
        {}
    }
}

/// An entity without a bounding box is never resolved against terrain.
pub proof fn lemma_no_box_no_collision(e: EntityModel, t: TerrainModel)
    requires
        e.hitbox is None,
    ensures
        collide_model(e, t) == (e, t),
{
}

/// The breaking threshold, exactly: a vertical impact at or below
/// `BREAKING_FORCE * timestep / mass` leaves the terrain intact, while a
/// strictly greater one destroys the tile and reduces the velocity by the
/// threshold instead of zeroing it.
pub proof fn lemma_breaking_threshold(e: EntityModel, t: TerrainModel, row: int, col: int)
    ensures
        abs_int(e.vel_row) <= breaking_velocity(e) ==> hit_model(e, t, row, col, true).1 == t,
        abs_int(e.vel_row) > breaking_velocity(e) ==> ({
            let r = hit_model(e, t, row, col, true);
            &&& r.1 == remove_tile(t, row, col)
            &&& r.0.vel_row == e.vel_row - sign_int(e.vel_row) * breaking_velocity(e)
        }),
{
}

/// Collision stability: an entity with a box, at rest on the tile grid
/// with an impassable floor under its bottom-left corner, comes out of a
/// full tick — integration under standard gravity, then collision — in
/// exactly the state it entered, except grounded. The proviso is that one
/// tick of gravity stays at or below its breaking threshold, which holds
/// for any mass up to six thousand units under standard gravity.
pub proof fn lemma_resting_stable(e: EntityModel, t: TerrainModel)
    requires
        e.wf(),
        e.hitbox is Some,
        e.mode is Dynamic,
        e.vel_row == 0,
        e.vel_col == 0,
        e.gravity_scale == FIXED_SCALE as int,
        e.pos_row % (FIXED_SCALE as int) == 0,
        impassable_at(t, e.bottom_edge() - 1, e.left_edge()),
        abs_int(
            fixed_mul(
                fixed_mul(crate::game::GRAVITY_ROW as int, TIMESTEP as int),
                FIXED_SCALE as int,
            ),
        ) <= breaking_velocity(e),
    ensures
        ({
            let e1 = integrate_model(e, crate::game::GRAVITY_ROW as int, 0);
            let r = collide_model(e1, t);
            &&& r.0 == (EntityModel { on_ground: true, ..e })
            &&& r.1 == t
        }),
{
    let s: int = FIXED_SCALE as int;
    let k: int = e.pos_row / s;
    vstd::arithmetic::div_mod::lemma_fundamental_div_mod(e.pos_row, s);
    assert(e.pos_row == k * s);
    crate::fixed::lemma_round_near(k, 0);
    assert(e.tile_row() == k);
    let a: int = fixed_mul(fixed_mul(crate::game::GRAVITY_ROW as int, TIMESTEP as int), s);
    vstd::arithmetic::div_mod::lemma_fundamental_div_mod_converse(2160000, 3600, 600, 0);
    assert((crate::game::GRAVITY_ROW as int) * (TIMESTEP as int) == -2160000) by (nonlinear_arith)
        requires
            crate::game::GRAVITY_ROW == -36000,
            TIMESTEP == 60,
    {}
    assert(fixed_mul(crate::game::GRAVITY_ROW as int, TIMESTEP as int) == -600);
    assert(a == -600);
    let e1 = integrate_model(e, crate::game::GRAVITY_ROW as int, 0);
    assert(fixed_mul(0, TIMESTEP as int) == 0);
    assert(fixed_mul(0, s) == 0);
    assert(e1.vel_row == -600);
    assert(e1.vel_col == 0);
    vstd::arithmetic::div_mod::lemma_fundamental_div_mod_converse(36000, 3600, 10, 0);
    assert(-600 * (TIMESTEP as int) == -36000) by (nonlinear_arith)
        requires
            TIMESTEP == 60,
    {}
    assert(fixed_mul(-600, TIMESTEP as int) == -10);
    assert(e1.pos_row == e.pos_row - 10);
    assert(e1.pos_col == e.pos_col);
    crate::fixed::lemma_round_near(k, -10);
    assert(e1.tile_row() == k);
    assert(e1.tile_col() == e.tile_col());
    let e0 = EntityModel { on_ground: false, ..e1 };
    assert(e0.tile_row() == k && e0.tile_col() == e.tile_col());
    assert(axis_h_model(e0, t) == (e0, t));
    assert(e0.left_edge() == e.left_edge() && e0.right_edge() == e.right_edge());
    assert(e0.bottom_edge() == e.bottom_edge());
    assert(e0.left_edge() <= e0.right_edge());
    assert(first_blocked_col(t, e0.bottom_edge() - 1, e0.left_edge(), e0.right_edge())
        == Some(e0.left_edge()));
    let hit = hit_model(e0, t, e0.bottom_edge() - 1, e0.left_edge(), true);
    assert(breaking_velocity(e0) == breaking_velocity(e));
    assert(abs_int(e0.vel_row) <= breaking_velocity(e0));
    assert(hit.0.pos_row == k * s);
    assert(hit.0.vel_row == 0);
    assert(hit.0.on_ground);
    assert(hit.1 == t);
    lemma_entity_model_eq(hit.0, EntityModel { on_ground: true, ..e });
    assert(collide_model(e1, t).0 == hit.0);
}

} // verus!
