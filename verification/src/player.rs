//! The player entity: a walking, jumping, one-cell body spawned just
//! above the highest ground the terrain can generate.

use vstd::prelude::*;

verus! {

use crate::fixed::{Fixed, FIXED_SCALE};
use crate::chunk::TERRAIN_HEIGHT;
use crate::entity::{Entity, EntityFlag, MovementMode, ModeModel};
use crate::physics::AABB;

/// Build the player: one tile above the terrain's top surface, with a
/// one-cell movement box, a mass of fifty units, and walking controls.
pub fn new_player() -> (r: Entity)
    ensures
        r@.wf(),
        r@.bounded(),
        r@.is_player,
        r@.pos_row == ((TERRAIN_HEIGHT + 1) as int) * (FIXED_SCALE as int),
        r@.pos_col == 0,
        r@.vel_row == 0 && r@.vel_col == 0,
        r@.gravity_scale == FIXED_SCALE as int,
        r@.mass == 50 * (FIXED_SCALE as int),
        r@.mode == (ModeModel::Walking {
            walking_speed: 8 * (FIXED_SCALE as int),
            jump_impulse: 10 * (FIXED_SCALE as int),
        }),
        r@.hitbox == Some(AABB { width: 0, height: 1 }),
        !r@.deletion_flag,
        !r@.on_ground,
{
    let mut player: Entity = Entity::new();
    player.position.row = Fixed::from_int((TERRAIN_HEIGHT + 1) as i64);
    player.mass = Fixed::from_int(50);
    player.movement_mode = MovementMode::Walking {
        walking_speed: Fixed::from_int(8),
        jump_impulse: Fixed::from_int(10),
    };
    player.movement_hitbox = Some(AABB { width: 0, height: 1 });
    player.add_flag(EntityFlag::Player);
    player
}

} // verus!
