//! Entities: simulation state for everything that moves through the world.
//!
//! An entity has a continuous position and velocity, a movement mode, an
//! optional axis-aligned bounding box anchored at its rounded tile
//! position, a mass used for impact calculations, and per-tick flags. The
//! mathematical state of an entity is `EntityModel`, whose fields are the
//! raw fixed-point values as unbounded integers; every physics contract
//! speaks in terms of that model.

use vstd::prelude::*;

verus! {

use crate::fixed::{Fixed, fixed_round, FIXED_SCALE, FIXED_HALF};
use crate::util::{Coord, CoordReal, Dim};
use crate::physics::AABB;

/// Marker flags an entity can carry.
#[derive(Clone, Copy, PartialEq, Eq, Structural, Debug, Hash)]
pub enum EntityFlag {
    Player,
}

/// How an entity moves each tick.
#[derive(Clone, Copy, PartialEq, Eq, Structural, Debug)]
pub enum MovementMode {
    /// Completely static and not affected by gravity. No control.
    Static,
    /// Affected by gravity and physics interactions. Cannot be controlled.
    Dynamic,
    /// Walking and/or jumping. Customizable and controllable.
    Walking { walking_speed: Fixed, jump_impulse: Fixed },
}

/// The same mode over unbounded integers, for the model.
#[derive(PartialEq, Eq, Structural)]
pub enum ModeModel {
    Static,
    Dynamic,
    Walking { walking_speed: int, jump_impulse: int },
}

/// The control state that input handling writes before the physics step.
#[derive(Clone, Copy, PartialEq, Eq, Structural, Debug)]
pub struct MovementControls {
    pub left: bool,
    pub right: bool,
    pub up: bool,
    pub down: bool,
    pub jump: bool,
}

impl MovementControls {
    /// The walking direction the controls ask for: `-1`, `0` or `1`.
    pub open spec fn spec_horizontal_direction(self) -> int {
        if self.left && self.right {
            0
        } else if self.left {
            -1
        } else if self.right {
            1
        } else {
            0
        }
    }

    pub fn empty() -> (r: MovementControls)
        ensures
            r == (MovementControls {
                left: false,
                right: false,
                up: false,
                down: false,
                jump: false,
            }),
    {
        MovementControls { left: false, right: false, up: false, down: false, jump: false }
    }

    pub fn horizontal_direction(&self) -> (r: i64)
        ensures
            r == self.spec_horizontal_direction(),
    {
        if self.left && self.right {
            0
        } else if self.left {
            -1
        } else if self.right {
            1
        } else {
            0
        }
    }
}

/// The mathematical state of an entity: raw fixed-point values as
/// unbounded integers.
#[verifier::ext_equal]
pub struct EntityModel {
    pub pos_row: int,
    pub pos_col: int,
    pub vel_row: int,
    pub vel_col: int,
    pub gravity_scale: int,
    pub mass: int,
    pub hitbox: Option<AABB>,
    pub mode: ModeModel,
    pub controls: MovementControls,
    pub on_ground: bool,
    pub deletion_flag: bool,
    pub is_player: bool,
}

impl EntityModel {
    /// The entity's rounded tile row.
    pub open spec fn tile_row(self) -> int {
        fixed_round(self.pos_row)
    }

    /// The entity's rounded tile column.
    pub open spec fn tile_col(self) -> int {
        fixed_round(self.pos_col)
    }

    pub open spec fn width(self) -> int {
        match self.hitbox {
            Some(b) => b.width as int,
            None => 0,
        }
    }

    pub open spec fn half_width(self) -> int {
        self.width() / 2
    }

    pub open spec fn height(self) -> int {
        match self.hitbox {
            Some(b) => b.height as int,
            None => 0,
        }
    }

    pub open spec fn left_edge(self) -> int {
        self.tile_col() - self.half_width()
    }

    pub open spec fn right_edge(self) -> int {
        self.tile_col() + self.half_width()
    }

    pub open spec fn bottom_edge(self) -> int {
        self.tile_row()
    }

    pub open spec fn top_edge(self) -> int {
        self.bottom_edge() + self.height() - 1
    }

    /// Structural soundness of the entity's parameters: a positive mass, a
    /// box of sane proportions, and factors small enough that one tick's
    /// arithmetic stays far from the machine limits.
    pub open spec fn wf(self) -> bool {
        &&& 1 <= self.mass <= 0x4000_0000
        &&& -0x4000_0000 <= self.gravity_scale <= 0x4000_0000
        &&& match self.hitbox {
            Some(b) => 0 <= b.width <= 255 && 1 <= b.height <= 255,
            None => true,
        }
        &&& match self.mode {
            ModeModel::Walking { walking_speed, jump_impulse } => {
                &&& 0 <= walking_speed <= 0x4000_0000
                &&& -0x4000_0000 <= jump_impulse <= 0x4000_0000
            },
            _ => true,
        }
    }

    /// The position and velocity all lie within `[-m, m]`.
    pub open spec fn within(self, m: int) -> bool {
        &&& -m <= self.pos_row <= m
        &&& -m <= self.pos_col <= m
        &&& -m <= self.vel_row <= m
        &&& -m <= self.vel_col <= m
    }

    /// The position and velocity are within the engine's working range.
    pub open spec fn bounded(self) -> bool {
        self.within(0x100_0000_0000_0000)
    }
}

/// The models of a sequence of entities.
pub open spec fn entity_models(es: Seq<Entity>) -> Seq<EntityModel> {
    es.map_values(|e: Entity| e@)
}

/// The spec-level mode of a movement mode value.
pub open spec fn mode_model(m: MovementMode) -> ModeModel {
    match m {
        MovementMode::Static => ModeModel::Static,
        MovementMode::Dynamic => ModeModel::Dynamic,
        MovementMode::Walking { walking_speed, jump_impulse } => ModeModel::Walking {
            walking_speed: walking_speed.raw as int,
            jump_impulse: jump_impulse.raw as int,
        },
    }
}

/// Mutable simulation state of one thing in the world.
pub struct Entity {
    pub position: CoordReal,
    pub velocity: CoordReal,
    pub gravity_scale: Fixed,
    pub mass: Fixed,
    pub flags: Vec<EntityFlag>,
    pub movement_hitbox: Option<AABB>,
    pub movement_mode: MovementMode,
    pub movement_controls: MovementControls,
    pub deletion_flag: bool,
    pub on_ground: bool,
}

impl View for Entity {
    type V = EntityModel;

    open spec fn view(&self) -> EntityModel {
        EntityModel {
            pos_row: self.position.row.raw as int,
            pos_col: self.position.col.raw as int,
            vel_row: self.velocity.row.raw as int,
            vel_col: self.velocity.col.raw as int,
            gravity_scale: self.gravity_scale.raw as int,
            mass: self.mass.raw as int,
            hitbox: self.movement_hitbox,
            mode: mode_model(self.movement_mode),
            controls: self.movement_controls,
            on_ground: self.on_ground,
            deletion_flag: self.deletion_flag,
            is_player: self.flags@.contains(EntityFlag::Player),
        }
    }
}

impl Entity {
    /// A fresh, still entity: at the origin, unit mass and gravity scale,
    /// no box, static, no controls, not deleted, not on the ground.
    pub fn new() -> (r: Entity)
        ensures
            r@.pos_row == 0 && r@.pos_col == 0,
            r@.vel_row == 0 && r@.vel_col == 0,
            r@.gravity_scale == FIXED_SCALE as int,
            r@.mass == FIXED_SCALE as int,
            r@.hitbox is None,
            r@.mode is Static,
            r@.controls == MovementControls::spec_empty(),
            !r@.on_ground,
            !r@.deletion_flag,
            !r@.is_player,
            r@.wf(),
    {
        Entity {
            position: CoordReal::zero(),
            velocity: CoordReal::zero(),
            gravity_scale: Fixed { raw: FIXED_SCALE },
            mass: Fixed { raw: FIXED_SCALE },
            flags: Vec::new(),
            movement_hitbox: None,
            movement_mode: MovementMode::Static,
            movement_controls: MovementControls::empty(),
            deletion_flag: false,
            on_ground: false,
        }
    }

    /// Whether the entity carries a flag.
    pub fn has_flag(&self, flag: EntityFlag) -> (r: bool)
        ensures
            r == self.flags@.contains(flag),
    {
        let mut i: usize = 0;
        while i < self.flags.len()
            invariant
                i <= self.flags@.len(),
                forall|j: int| 0 <= j < i ==> self.flags@[j] != flag,
            decreases self.flags@.len() - i,
        {
            if self.flags[i] == flag {
                proof {
                    assert(self.flags@[i as int] == flag);
                }
                return true;
            }
            i = i + 1;
        }
        proof {
            if self.flags@.contains(flag) {
                let j = choose|j: int| 0 <= j < self.flags@.len() && self.flags@[j] == flag;
                assert(self.flags@[j] != flag);
            }
        }
        false
    }

    /// Add a flag the entity does not already carry.
    pub fn add_flag(&mut self, flag: EntityFlag)
        ensures
            final(self)@ == (EntityModel {
                is_player: old(self)@.is_player || flag is Player,
                ..old(self)@
            }),
    {
        if !self.has_flag(flag) {
            self.flags.push(flag);
            proof {
                assert(self.flags@[self.flags@.len() - 1] == flag);
                assert(self.flags@.contains(flag));
                assert(forall|f: EntityFlag|
                    old(self).flags@.contains(f) ==> #[trigger] self.flags@.contains(f));
            }
        }
        proof {
            lemma_flag_is_player(self.flags@, old(self).flags@, flag);
        }
    }

    /// The entity's rounded tile position.
    pub fn tile_pos(&self) -> (r: Coord)
        requires
            self@.within(0x400_0000_0000_0000),
        ensures
            r.row == self@.tile_row(),
            r.col == self@.tile_col(),
    {
        Coord { row: self.position.row.round_int(), col: self.position.col.round_int() }
    }

    /// The width of the movement box, or zero without one.
    pub fn width(&self) -> (r: Dim)
        ensures
            r == self@.width(),
    {
        match &self.movement_hitbox {
            Some(hitbox) => hitbox.width,
            None => 0,
        }
    }

    pub fn half_width(&self) -> (r: Dim)
        requires
            self@.width() >= 0,
        ensures
            r == self@.half_width(),
    {
        let w: i64 = self.width();
        ((w as u64) / 2u64) as i64
    }

    /// The height of the movement box, or zero without one.
    pub fn height(&self) -> (r: Dim)
        ensures
            r == self@.height(),
    {
        match &self.movement_hitbox {
            Some(hitbox) => hitbox.height,
            None => 0,
        }
    }

    /// The column of the box's leftmost cells.
    pub fn left_edge(&self) -> (r: Dim)
        requires
            self@.within(0x400_0000_0000_0000),
            self@.wf(),
        ensures
            r == self@.left_edge(),
    {
        self.tile_pos().col - self.half_width()
    }

    /// Move the entity so the left edge sits at `col`.
    pub fn set_left_edge(&mut self, col: Dim)
        requires
            old(self)@.wf(),
            -0x4_0000_0000_0000 <= col <= 0x4_0000_0000_0000,
        ensures
            final(self)@ == (EntityModel {
                pos_col: (col + old(self)@.half_width()) * (FIXED_SCALE as int),
                ..old(self)@
            }),
    {
        let hw: i64 = self.half_width();
        self.position.col = Fixed::from_int(col + hw);
    }

    /// The column of the box's rightmost cells.
    pub fn right_edge(&self) -> (r: Dim)
        requires
            self@.within(0x400_0000_0000_0000),
            self@.wf(),
        ensures
            r == self@.right_edge(),
    {
        self.tile_pos().col + self.half_width()
    }

    /// Move the entity so the right edge sits at `col`.
    pub fn set_right_edge(&mut self, col: Dim)
        requires
            old(self)@.wf(),
            -0x4_0000_0000_0000 <= col <= 0x4_0000_0000_0000,
        ensures
            final(self)@ == (EntityModel {
                pos_col: (col - old(self)@.half_width()) * (FIXED_SCALE as int),
                ..old(self)@
            }),
    {
        let hw: i64 = self.half_width();
        self.position.col = Fixed::from_int(col - hw);
    }

    /// The row of the box's topmost cells.
    pub fn top_edge(&self) -> (r: Dim)
        requires
            self@.within(0x400_0000_0000_0000),
            self@.wf(),
        ensures
            r == self@.top_edge(),
    {
        self.bottom_edge() + self.height() - 1
    }

    /// Move the entity so the top edge sits at `row`.
    pub fn set_top_edge(&mut self, row: Dim)
        requires
            old(self)@.wf(),
            -0x4_0000_0000_0000 <= row <= 0x4_0000_0000_0000,
        ensures
            final(self)@ == (EntityModel {
                pos_row: (row - old(self)@.height() + 1) * (FIXED_SCALE as int),
                ..old(self)@
            }),
    {
        let h: i64 = self.height();
        self.position.row = Fixed::from_int(row - h + 1);
    }

    /// The row of the box's bottom cells: the rounded tile row.
    pub fn bottom_edge(&self) -> (r: Dim)
        requires
            self@.within(0x400_0000_0000_0000),
        ensures
            r == self@.bottom_edge(),
    {
        self.tile_pos().row
    }

    /// Move the entity so the bottom edge sits at `row`.
    pub fn set_bottom_edge(&mut self, row: Dim)
        requires
            -0x4_0000_0000_0000 <= row <= 0x4_0000_0000_0000,
        ensures
            final(self)@ == (EntityModel { pos_row: row * (FIXED_SCALE as int), ..old(self)@ }),
    {
        self.position.row = Fixed::from_int(row);
    }

    /// The continuous centre of the movement box.
    pub fn center(&self) -> (r: CoordReal)
        requires
            self@.within(0x400_0000_0000_0000),
            self@.wf(),
        ensures
            r.row.raw == self@.pos_row + self@.height() * (FIXED_HALF as int),
            r.col.raw == self@.pos_col + self@.width() * (FIXED_HALF as int),
    {
        CoordReal {
            row: Fixed { raw: self.position.row.raw + self.height() * FIXED_HALF },
            col: Fixed { raw: self.position.col.raw + self.width() * FIXED_HALF },
        }
    }
}

impl MovementControls {
    /// The empty control state, as a spec value.
    pub open spec fn spec_empty() -> MovementControls {
        MovementControls { left: false, right: false, up: false, down: false, jump: false }
    }
}

/// Pushing `flag` onto a flag list (or leaving it, when already present)
/// makes "contains Player" the disjunction of the old state and the flag
/// being `Player`.
proof fn lemma_flag_is_player(post: Seq<EntityFlag>, pre: Seq<EntityFlag>, flag: EntityFlag)
    requires
        post == pre || (post == pre.push(flag) && !pre.contains(flag)),
        post == pre ==> pre.contains(flag),
    ensures
        post.contains(EntityFlag::Player) == (pre.contains(EntityFlag::Player) || flag is Player),
{
    if post == pre {
        assert(flag is Player ==> pre.contains(EntityFlag::Player));
    } else {
        assert(post == pre.push(flag));
        if flag is Player {
            assert(post[post.len() - 1] == EntityFlag::Player);
            assert(post.contains(EntityFlag::Player));
        }
        if pre.contains(EntityFlag::Player) {
            let j = choose|j: int| 0 <= j < pre.len() && pre[j] == EntityFlag::Player;
            assert(post[j] == EntityFlag::Player);
            assert(post.contains(EntityFlag::Player));
        }
        if post.contains(EntityFlag::Player) && !(flag is Player) {
            let j = choose|j: int| 0 <= j < post.len() && post[j] == EntityFlag::Player;
            if j < pre.len() {
                assert(pre[j] == EntityFlag::Player);
                assert(pre.contains(EntityFlag::Player));
            } else {
                assert(post[j] == flag);
            }
        }
    }
}

} // verus!
