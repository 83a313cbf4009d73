//! The simulation context: terrain, entities, camera and gravity, owned
//! together and advanced one fixed timestep at a time.

use vstd::prelude::*;

verus! {

use crate::fixed::Fixed;
use crate::util::{Coord, CoordReal};
use crate::camera::Camera;
use crate::entity::{Entity, EntityModel, MovementControls, EntityFlag, entity_models};
use crate::terrain::{Terrain, FOCUS_LIMIT, stream_model};
use crate::physics::{integrate_all, collide_all};

/// The world's downward pull, in raw fixed-point units: -10 tiles/s².
pub const GRAVITY_ROW: i64 = -36000;

/// The whole simulation state.
pub struct Game {
    pub exit_requested: bool,
    pub camera: Camera,
    pub entities: Vec<Entity>,
    pub terrain: Terrain,
    pub gravity: CoordReal,
}

/// The least index at or after `i` holding a player entity.
pub open spec fn first_player_index(es: Seq<EntityModel>, i: int) -> Option<int>
    decreases es.len() - i,
{
    if i < 0 || i >= es.len() {
        None
    } else if es[i].is_player {
        Some(i)
    } else {
        first_player_index(es, i + 1)
    }
}

/// A player search that found nothing in `[lo, i)` behaves like one
/// starting at `i`.
pub proof fn lemma_player_search_prefix(es: Seq<EntityModel>, lo: int, i: int)
    requires
        0 <= lo <= i <= es.len(),
        forall|j: int| lo <= j < i ==> !es[j].is_player,
    ensures
        first_player_index(es, lo) == first_player_index(es, i),
    decreases i - lo,
{
    if i > lo {
        assert(!es[lo].is_player);
        lemma_player_search_prefix(es, lo + 1, i);
    }
}

impl Game {
    /// Structural invariant: a well-formed terrain, well-formed entities,
    /// sane gravity and a camera within the streaming engine's focus
    /// range.
    pub open spec fn wf(self) -> bool {
        &&& self.terrain.wf()
        &&& forall|i: int|
            0 <= i < self.entities@.len() ==> (#[trigger] self.entities@[i])@.wf()
        &&& -0x4000_0000 <= self.gravity.row.raw <= 0x4000_0000
        &&& -0x4000_0000 <= self.gravity.col.raw <= 0x4000_0000
        &&& -(FOCUS_LIMIT as int) <= self.camera.position.row <= FOCUS_LIMIT as int
        &&& -(FOCUS_LIMIT as int) <= self.camera.position.col <= FOCUS_LIMIT as int
    }

    /// Every entity's position and velocity lie within `[-m, m]`.
    pub open spec fn entities_within(self, m: int) -> bool {
        forall|i: int|
            0 <= i < self.entities@.len() ==> (#[trigger] self.entities@[i])@.within(m)
    }

    /// A fresh world with the given seed: no entities, no loaded chunks,
    /// the camera at the origin, and standard downward gravity.
    pub fn new_seeded(seed: u32) -> (r: Game)
        ensures
            r.wf(),
            r.entities@.len() == 0,
            !r.exit_requested,
            r.camera.position == (Coord { row: 0, col: 0 }),
            r.terrain@.seed == seed,
            r.terrain@.chunks == Map::<int, Seq<Option<crate::chunk::Tile>>>::empty(),
            r.gravity.row.raw == GRAVITY_ROW && r.gravity.col.raw == 0,
    {
        Game {
            exit_requested: false,
            camera: Camera { position: Coord { row: 0, col: 0 } },
            entities: Vec::new(),
            terrain: Terrain::new(seed),
            gravity: CoordReal { row: Fixed { raw: GRAVITY_ROW }, col: Fixed { raw: 0 } },
        }
    }

    /// A fresh world with the default seed.
    pub fn new() -> (r: Game)
        ensures
            r.wf(),
            r.entities@.len() == 0,
            !r.exit_requested,
            r.camera.position == (Coord { row: 0, col: 0 }),
            r.terrain@.seed == 0,
            r.terrain@.chunks == Map::<int, Seq<Option<crate::chunk::Tile>>>::empty(),
            r.gravity.row.raw == GRAVITY_ROW && r.gravity.col.raw == 0,
    {
        Game::new_seeded(0)
    }

    pub fn exit_requested(&self) -> (r: bool)
        ensures
            r == self.exit_requested,
    {
        self.exit_requested
    }

    /// The index of the first player entity, if any.
    pub fn find_player(&self) -> (r: Option<usize>)
        ensures
            match r {
                Some(i) => i < self.entities@.len() && first_player_index(
                    entity_models(self.entities@),
                    0,
                ) == Some(i as int),
                None => first_player_index(entity_models(self.entities@), 0) is None,
            },
    {
        let ghost es = entity_models(self.entities@);
        let mut i: usize = 0;
        while i < self.entities.len()
            invariant
                i <= self.entities@.len(),
                es == entity_models(self.entities@),
                forall|j: int| 0 <= j < i ==> !es[j].is_player,
            decreases self.entities@.len() - i,
        {
            if self.entities[i].has_flag(EntityFlag::Player) {
                proof {
                    assert(es[i as int].is_player);
                    lemma_player_search_prefix(es, 0, i as int);
                }
                return Some(i);
            }
            i = i + 1;
        }
        proof {
            lemma_player_search_prefix(es, 0, self.entities@.len() as int);
        }
        None
    }

    /// The first player entity, if any.
    pub fn get_player(&self) -> (r: Option<&Entity>)
        ensures
            match r {
                Some(e) => {
                    &&& first_player_index(entity_models(self.entities@), 0) matches Some(i)
                        && *e == self.entities@[i]
                },
                None => first_player_index(entity_models(self.entities@), 0) is None,
            },
    {
        match self.find_player() {
            Some(i) => Some(&self.entities[i]),
            None => None,
        }
    }

    /// The first player entity for mutation, if any.
    pub fn get_player_mut(&mut self) -> (r: Option<&mut Entity>)
        ensures
            match r {
                Some(e) => {
                    &&& first_player_index(entity_models(old(self).entities@), 0) matches Some(i)
                        && *e == old(self).entities@[i]
                        && final(self).entities@ == old(self).entities@.update(i, *final(e))
                },
                None => {
                    &&& first_player_index(entity_models(old(self).entities@), 0) is None
                    &&& final(self).entities@ == old(self).entities@
                },
            },
            final(self).camera == old(self).camera,
            final(self).terrain == old(self).terrain,
            final(self).gravity == old(self).gravity,
            final(self).exit_requested == old(self).exit_requested,
    {
        match self.find_player() {
            Some(i) => Some(&mut self.entities[i]),
            None => None,
        }
    }

    /// Write the player's control state; without a player this does
    /// nothing.
    pub fn set_player_controls(&mut self, controls: MovementControls)
        ensures
            final(self).camera == old(self).camera,
            final(self).terrain == old(self).terrain,
            final(self).gravity == old(self).gravity,
            final(self).exit_requested == old(self).exit_requested,
            match first_player_index(entity_models(old(self).entities@), 0) {
                Some(i) => final(self).entities@ == old(self).entities@.update(
                    i,
                    (Entity { movement_controls: controls, ..old(self).entities@[i] }),
                ),
                None => final(self).entities@ == old(self).entities@,
            },
    {
        match self.find_player() {
            Some(i) => {
                let e: &mut Entity = &mut self.entities[i];
                e.movement_controls = controls;
            },
            None => {
            },
        }
    }

    /// Point the camera at the first player's tile position; without a
    /// player the camera stays.
    pub fn snap_camera_to_player(&mut self)
        requires
            old(self).entities_within((0x200_0000_0000_0000 + 0x3000) as int),
        ensures
            final(self).entities@ == old(self).entities@,
            final(self).terrain == old(self).terrain,
            final(self).gravity == old(self).gravity,
            final(self).exit_requested == old(self).exit_requested,
            ({
                let es = entity_models(old(self).entities@);
                match first_player_index(es, 0) {
                    Some(i) => final(self).camera.position.row == es[i].tile_row()
                        && final(self).camera.position.col == es[i].tile_col(),
                    None => final(self).camera == old(self).camera,
                }
            }),
            (-(FOCUS_LIMIT as int) <= final(self).camera.position.row <= FOCUS_LIMIT as int)
                || final(self).camera == old(self).camera,
            (-(FOCUS_LIMIT as int) <= final(self).camera.position.col <= FOCUS_LIMIT as int)
                || final(self).camera == old(self).camera,
    {
        let idx: Option<usize> = self.find_player();
        match idx {
            Some(i) => {
                proof {
                    assert(self.entities@[i as int]@.within((0x200_0000_0000_0000 + 0x3000) as int));
                    crate::fixed::lemma_round_bound(self.entities@[i as int]@.pos_row);
                    crate::fixed::lemma_round_bound(self.entities@[i as int]@.pos_col);
                }
                let pos: Coord = self.entities[i].tile_pos();
                self.camera.position = pos;
            },
            None => {
            },
        }
    }

    /// Stream the terrain around the camera's column.
    pub fn load_chunks_around_camera(&mut self)
        requires
            old(self).terrain.wf(),
            -(FOCUS_LIMIT as int) <= old(self).camera.position.col <= FOCUS_LIMIT as int,
        ensures
            final(self).terrain.wf(),
            final(self).terrain@ == stream_model(
                old(self).terrain@,
                old(self).camera.position.col as int,
            ),
            final(self).entities@ == old(self).entities@,
            final(self).camera == old(self).camera,
            final(self).gravity == old(self).gravity,
            final(self).exit_requested == old(self).exit_requested,
    {
        let focus: Coord = self.camera.position;
        self.terrain.stream_around(focus);
    }

    /// Drop every entity whose deletion flag is set, keeping the order of
    /// the rest.
    pub fn delete_marked_entities(&mut self)
        ensures
            final(self).entities@ == old(self).entities@.filter(
                |e: Entity| !e@.deletion_flag,
            ),
            final(self).camera == old(self).camera,
            final(self).terrain == old(self).terrain,
            final(self).gravity == old(self).gravity,
            final(self).exit_requested == old(self).exit_requested,
    {
        let ghost orig = self.entities@;
        let mut i: usize = 0;
        let mut kghost: Ghost<int> = Ghost(0int);
        while i < self.entities.len()
            invariant
                0 <= kghost@ <= orig.len(),
                self.entities@ =~= orig.subrange(0, kghost@).filter(|e: Entity| !e@.deletion_flag)
                    + orig.subrange(kghost@, orig.len() as int),
                i as int == orig.subrange(0, kghost@).filter(|e: Entity| !e@.deletion_flag).len(),
                self.camera == old(self).camera,
                self.terrain == old(self).terrain,
                self.gravity == old(self).gravity,
                self.exit_requested == old(self).exit_requested,
            decreases orig.len() - kghost@,
        {
            let ghost kk = kghost@;
            proof {
                assert(self.entities@.len() == i as int + (orig.len() - kk));
                assert(kk < orig.len());
                assert(self.entities@[i as int] == orig.subrange(kk, orig.len() as int)[0]);
                assert(self.entities@[i as int] == orig[kk]);
            }
            if self.entities[i].deletion_flag {
                self.entities.remove(i);
                kghost = Ghost(kk + 1);
                proof {
                    lemma_filter_step(orig, kk);
                    assert(self.entities@ =~= orig.subrange(0, kk + 1).filter(
                        |e: Entity| !e@.deletion_flag,
                    ) + orig.subrange(kk + 1, orig.len() as int));
                }
            } else {
                i = i + 1;
                kghost = Ghost(kk + 1);
                proof {
                    lemma_filter_step(orig, kk);
                    assert(self.entities@ =~= orig.subrange(0, kk + 1).filter(
                        |e: Entity| !e@.deletion_flag,
                    ) + orig.subrange(kk + 1, orig.len() as int));
                }
            }
        }
        proof {
            assert(kghost@ == orig.len());
            assert(orig.subrange(0, orig.len() as int) =~= orig);
            assert(self.entities@ =~= orig.filter(|e: Entity| !e@.deletion_flag));
        }
    }
}


/// A player exists at or after `i`, so the search from `i` succeeds.
pub proof fn lemma_player_found(es: Seq<EntityModel>, i: int, j: int)
    requires
        0 <= i <= j < es.len(),
        es[j].is_player,
    ensures
        first_player_index(es, i) is Some,
    decreases j - i,
{
    if !es[i].is_player {
        lemma_player_found(es, i + 1, j);
    }
}

/// Taking models commutes with dropping the entities marked for
/// deletion.
proof fn lemma_models_filter(s: Seq<Entity>)
    ensures
        entity_models(s.filter(|e: Entity| !e@.deletion_flag)) == entity_models(s).filter(
            |m: EntityModel| !m.deletion_flag,
        ),
    decreases s.len(),
{
    reveal_with_fuel(Seq::<_>::filter, 2);
    let pe = |e: Entity| !e@.deletion_flag;
    let pm = |m: EntityModel| !m.deletion_flag;
    if s.len() == 0 {
        assert(s.filter(pe) =~= s);
        assert(entity_models(s) =~= Seq::<EntityModel>::empty());
        assert(entity_models(s).filter(pm) =~= Seq::<EntityModel>::empty());
        assert(entity_models(s.filter(pe)) =~= Seq::<EntityModel>::empty());
    } else {
        let pre = s.drop_last();
        lemma_models_filter(pre);
        let ms = entity_models(s);
        assert(ms.len() == s.len());
        assert(ms.drop_last() =~= entity_models(pre));
        assert(ms.last() == s.last()@);
        if pe(s.last()) {
            assert(s.filter(pe) == pre.filter(pe).push(s.last()));
            assert(entity_models(pre.filter(pe).push(s.last())) =~= entity_models(
                pre.filter(pe),
            ).push(s.last()@));
            assert(ms.filter(pm) == ms.drop_last().filter(pm).push(ms.last()));
            assert(entity_models(s.filter(pe)) =~= ms.filter(pm));
        } else {
            assert(s.filter(pe) == pre.filter(pe));
            assert(ms.filter(pm) == ms.drop_last().filter(pm));
            assert(entity_models(s.filter(pe)) =~= ms.filter(pm));
        }
    }
}

/// Every entity the deletion sweep keeps was one of the swept entities.
proof fn lemma_filter_keeps_entities(s: Seq<Entity>, i: int)
    requires
        0 <= i < s.filter(|e: Entity| !e@.deletion_flag).len(),
    ensures
        s.contains(s.filter(|e: Entity| !e@.deletion_flag)[i]),
    decreases s.len(),
{
    reveal_with_fuel(Seq::<_>::filter, 2);
    let p = |e: Entity| !e@.deletion_flag;
    let f = s.filter(p);
    let pre = s.drop_last();
    if p(s.last()) {
        assert(f == pre.filter(p).push(s.last()));
        if i == f.len() - 1 {
            assert(f[i] == s.last());
            assert(s[s.len() - 1] == s.last());
        } else {
            lemma_filter_keeps_entities(pre, i);
            assert(f[i] == pre.filter(p)[i]);
            let j = choose|j: int| 0 <= j < pre.len() && pre[j] == pre.filter(p)[i];
            assert(s[j] == f[i]);
        }
    } else {
        assert(f == pre.filter(p));
        lemma_filter_keeps_entities(pre, i);
        let j = choose|j: int| 0 <= j < pre.len() && pre[j] == pre.filter(p)[i];
        assert(s[j] == f[i]);
    }
}

impl Game {
    /// Bring an entity into the world. Spawning a player snaps the camera
    /// to it and streams the terrain around it at once.
    pub fn spawn(&mut self, entity: Entity)
        requires
            old(self).wf(),
            old(self).entities_within(0x100_0000_0000_0000),
            entity@.wf(),
            entity@.bounded(),
        ensures
            final(self).wf(),
            final(self).entities@ == old(self).entities@.push(entity),
            final(self).gravity == old(self).gravity,
            final(self).exit_requested == old(self).exit_requested,
            ({
                let es = entity_models(old(self).entities@.push(entity));
                if entity@.is_player {
                    match first_player_index(es, 0) {
                        Some(i) => {
                            &&& final(self).camera.position.row == es[i].tile_row()
                            &&& final(self).camera.position.col == es[i].tile_col()
                            &&& final(self).terrain@ == stream_model(
                                old(self).terrain@,
                                es[i].tile_col(),
                            )
                        },
                        None => false,
                    }
                } else {
                    &&& final(self).camera == old(self).camera
                    &&& final(self).terrain == old(self).terrain
                }
            }),
    {
        let is_player: bool = entity.has_flag(EntityFlag::Player);
        let ghost pushed = old(self).entities@.push(entity);
        self.entities.push(entity);
        proof {
            assert forall|i: int| 0 <= i < self.entities@.len() implies (#[trigger] self
                .entities@[i])@.wf() by {
                if i < pushed.len() - 1 {
                    assert(self.entities@[i] == old(self).entities@[i]);
                }
            }
            assert forall|i: int| 0 <= i < self.entities@.len() implies (#[trigger] self
                .entities@[i])@.within((0x200_0000_0000_0000 + 0x3000) as int) by {
                if i < pushed.len() - 1 {
                    assert(self.entities@[i] == old(self).entities@[i]);
                    assert(old(self).entities@[i]@.within(0x100_0000_0000_0000));
                }
            }
        }
        if is_player {
            proof {
                let es = entity_models(self.entities@);
                assert(es[es.len() - 1].is_player);
                lemma_player_found(es, 0, es.len() - 1);
            }
            self.snap_camera_to_player();
            self.load_chunks_around_camera();
        }
    }

    /// One fixed-timestep tick: integrate, resolve collisions, snap the
    /// camera to the player, stream terrain around it, and sweep deleted
    /// entities — strictly in that order.
    pub fn tick(&mut self)
        requires
            old(self).wf(),
            old(self).entities_within(0x100_0000_0000_0000),
        ensures
            final(self).wf(),
            final(self).gravity == old(self).gravity,
            final(self).exit_requested == old(self).exit_requested,
            ({
                let gr = old(self).gravity.row.raw as int;
                let gc = old(self).gravity.col.raw as int;
                let es1 = integrate_all(entity_models(old(self).entities@), gr, gc);
                let r = collide_all(es1, old(self).terrain@);
                let es2 = r.0;
                let cam_row = match first_player_index(es2, 0) {
                    Some(i) => es2[i].tile_row(),
                    None => old(self).camera.position.row as int,
                };
                let cam_col = match first_player_index(es2, 0) {
                    Some(i) => es2[i].tile_col(),
                    None => old(self).camera.position.col as int,
                };
                &&& entity_models(final(self).entities@) == es2.filter(
                    |m: EntityModel| !m.deletion_flag,
                )
                &&& final(self).terrain@ == stream_model(r.1, cam_col)
                &&& final(self).camera.position.row == cam_row
                &&& final(self).camera.position.col == cam_col
            }),
    {
        self.update_physics_bodies();
        self.solve_collisions();
        self.snap_camera_to_player();
        self.load_chunks_around_camera();
        let ghost pre_delete = self.entities@;
        self.delete_marked_entities();
        proof {
            lemma_models_filter(pre_delete);
            assert forall|i: int| 0 <= i < self.entities@.len() implies (#[trigger] self
                .entities@[i])@.wf() && self.entities@[i]@.within(
                (0x200_0000_0000_0000 + 0x3000) as int,
            ) by {
                lemma_filter_keeps_entities(pre_delete, i);
                let e = pre_delete.filter(|e: Entity| !e@.deletion_flag)[i];
                let j = choose|j: int| 0 <= j < pre_delete.len() && pre_delete[j] == e;
                assert(pre_delete[j]@.wf());
            }
        }
    }
}

/// Filtering one more element of a prefix appends it when it is kept and
/// drops it when it is marked.
proof fn lemma_filter_step(s: Seq<Entity>, k: int)
    requires
        0 <= k < s.len(),
    ensures
        s.subrange(0, k + 1).filter(|e: Entity| !e@.deletion_flag) == if !s[k]@.deletion_flag {
            s.subrange(0, k).filter(|e: Entity| !e@.deletion_flag).push(s[k])
        } else {
            s.subrange(0, k).filter(|e: Entity| !e@.deletion_flag)
        },
{
    let p = |e: Entity| !e@.deletion_flag;
    let pre = s.subrange(0, k + 1);
    assert(pre.drop_last() =~= s.subrange(0, k));
    assert(pre.last() == s[k]);
    reveal_with_fuel(Seq::<_>::filter, 2);
    assert(pre.filter(p) == if p(pre.last()) {
        pre.drop_last().filter(p).push(pre.last())
    } else {
        pre.drop_last().filter(p)
    });
}

} // verus!
