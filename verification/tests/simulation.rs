//! Tests for entities, per-tick physics, collision resolution, breaking,
//! and whole-game scenarios.

use tileworld::chunk::Tile;
use tileworld::entity::{Entity, EntityFlag, MovementControls, MovementMode};
use tileworld::fixed::{Fixed, FIXED_SCALE};
use tileworld::game::{Game, GRAVITY_ROW};
use tileworld::physics::{AABB, tile_impassable, BREAKING_FORCE, TIMESTEP};
use tileworld::player::new_player;
use tileworld::util::Coord;
use tileworld::camera::Camera;

/// A world with the space from row 10 up to row 40 carved to air around
/// the origin, leaving the generated stone at row 9 as a flat floor.
fn arena() -> Game {
    let mut game = Game::new_seeded(0);
    game.load_chunks_around_camera();
    for row in 10..=40 {
        for col in -8..=8 {
            game.terrain.set_tile(Coord { row, col }, None);
        }
    }
    game
}

fn one_cell_box() -> Option<AABB> {
    Some(AABB { width: 0, height: 1 })
}

#[test]
fn entity_defaults() {
    let e = Entity::new();
    assert_eq!(e.position.row.raw, 0);
    assert_eq!(e.velocity.col.raw, 0);
    assert_eq!(e.gravity_scale.raw, FIXED_SCALE);
    assert_eq!(e.mass.raw, FIXED_SCALE);
    assert!(e.movement_hitbox.is_none());
    assert!(matches!(e.movement_mode, MovementMode::Static));
    assert!(!e.deletion_flag);
    assert!(!e.on_ground);
    assert!(!e.has_flag(EntityFlag::Player));
}

#[test]
fn entity_edges_follow_the_box() {
    let mut e = Entity::new();
    e.movement_hitbox = Some(AABB { width: 4, height: 3 });
    e.position.row = Fixed::from_int(10);
    e.position.col = Fixed::from_int(7);
    assert_eq!(e.tile_pos(), Coord { row: 10, col: 7 });
    assert_eq!(e.width(), 4);
    assert_eq!(e.half_width(), 2);
    assert_eq!(e.height(), 3);
    assert_eq!(e.left_edge(), 5);
    assert_eq!(e.right_edge(), 9);
    assert_eq!(e.bottom_edge(), 10);
    assert_eq!(e.top_edge(), 12);
    e.set_left_edge(0);
    assert_eq!(e.left_edge(), 0);
    e.set_right_edge(9);
    assert_eq!(e.right_edge(), 9);
    e.set_bottom_edge(20);
    assert_eq!(e.bottom_edge(), 20);
    e.set_top_edge(30);
    assert_eq!(e.top_edge(), 30);
}

#[test]
fn horizontal_direction_of_controls() {
    let mut c = MovementControls::empty();
    assert_eq!(c.horizontal_direction(), 0);
    c.left = true;
    assert_eq!(c.horizontal_direction(), -1);
    c.right = true;
    assert_eq!(c.horizontal_direction(), 0);
    c.left = false;
    assert_eq!(c.horizontal_direction(), 1);
}

#[test]
fn gravity_integration_is_exact() {
    // A dynamic entity with no box in open air: after n ticks the
    // vertical velocity is exactly n times gravity * timestep.
    let mut game = Game::new_seeded(0);
    let mut e = Entity::new();
    e.movement_mode = MovementMode::Dynamic;
    e.position.row = Fixed::from_int(250);
    game.spawn(e);
    let per_tick: i64 = -600;  // -36000 raw gravity, over a 1/60 s step
    let mut expected_pos: i64 = 250 * FIXED_SCALE;
    for n in 1..=20i64 {
        game.tick();
        expected_pos += (per_tick * n) / 60;
        assert_eq!(game.entities[0].velocity.row.raw, per_tick * n);
        assert_eq!(game.entities[0].velocity.col.raw, 0);
        assert_eq!(game.entities[0].position.row.raw, expected_pos);
    }
}

#[test]
fn static_entities_ignore_gravity() {
    let mut game = Game::new_seeded(0);
    let mut e = Entity::new();
    e.position.row = Fixed::from_int(250);
    game.spawn(e);
    for _ in 0..5 {
        game.tick();
    }
    assert_eq!(game.entities[0].position.row.raw, 250 * FIXED_SCALE);
    assert_eq!(game.entities[0].velocity.row.raw, 0);
}

#[test]
fn resting_entity_is_stable() {
    // Zero horizontal velocity on a stone floor: grounded after one tick
    // and no vertical drift over many.
    let mut game = arena();
    let mut e = Entity::new();
    e.movement_mode = MovementMode::Dynamic;
    e.movement_hitbox = one_cell_box();
    e.position.row = Fixed::from_int(10);
    game.spawn(e);
    assert_eq!(game.terrain.tile_at(Coord { row: 9, col: 0 }), Some(Tile::Stone));
    game.tick();
    assert!(game.entities[0].on_ground);
    assert_eq!(game.entities[0].position.row.raw, 10 * FIXED_SCALE);
    for _ in 0..100 {
        game.tick();
        assert!(game.entities[0].on_ground);
        assert_eq!(game.entities[0].position.row.raw, 10 * FIXED_SCALE);
        assert_eq!(game.entities[0].velocity.row.raw, 0);
    }
}

#[test]
fn falling_entity_lands_on_the_floor() {
    let mut game = arena();
    let mut e = Entity::new();
    e.movement_mode = MovementMode::Dynamic;
    e.movement_hitbox = one_cell_box();
    e.position.row = Fixed::from_int(14);
    game.spawn(e);
    for _ in 0..200 {
        game.tick();
    }
    assert!(game.entities[0].on_ground);
    assert_eq!(game.entities[0].position.row.raw, 10 * FIXED_SCALE);
    assert_eq!(game.entities[0].velocity.row.raw, 0);
}

#[test]
fn walking_accelerates_and_clamps() {
    let mut game = arena();
    let mut e = Entity::new();
    e.movement_mode = MovementMode::Walking {
        walking_speed: Fixed::from_int(8),
        jump_impulse: Fixed::from_int(10),
    };
    e.movement_hitbox = one_cell_box();
    e.position.row = Fixed::from_int(10);
    e.movement_controls.right = true;
    game.spawn(e);
    game.tick();
    // The clamp is instantaneous: one tick reaches full speed.
    assert_eq!(game.entities[0].velocity.col.raw, 8 * FIXED_SCALE);
    game.tick();
    assert_eq!(game.entities[0].velocity.col.raw, 8 * FIXED_SCALE);
}

#[test]
fn walking_stops_without_input() {
    let mut game = arena();
    let mut e = Entity::new();
    e.movement_mode = MovementMode::Walking {
        walking_speed: Fixed::from_int(8),
        jump_impulse: Fixed::from_int(10),
    };
    e.movement_hitbox = one_cell_box();
    e.position.row = Fixed::from_int(10);
    e.velocity.col = Fixed::from_int(5);
    game.spawn(e);
    game.tick();
    assert_eq!(game.entities[0].velocity.col.raw, 0);
}

#[test]
fn jump_scenario_applies_the_impulse_exactly() {
    // Spawn a walking entity with walking_speed 8 and jump_impulse 10 one
    // tile above the stone floor, jump requested, on_ground initially
    // false. The first tick grounds it; the next applies exactly the jump
    // impulse (gravity also applied that same tick) and lifts it off.
    let mut game = arena();
    let mut e = new_player();
    e.position.row = Fixed::from_int(10);
    e.movement_controls.jump = true;
    assert!(!e.on_ground);
    game.spawn(e);
    game.tick();
    assert!(game.entities[0].on_ground);
    assert_eq!(game.entities[0].velocity.row.raw, 0);
    game.tick();
    // +10 from the impulse, -1/6 from gravity, in raw units.
    assert_eq!(game.entities[0].velocity.row.raw, 10 * FIXED_SCALE - 600);
    assert!(game.entities[0].velocity.row.raw > 0);
    assert!(!game.entities[0].on_ground);
    assert!(game.entities[0].position.row.raw > 10 * FIXED_SCALE);
}

#[test]
fn airborne_jump_is_ignored() {
    let mut game = arena();
    let mut e = Entity::new();
    e.movement_mode = MovementMode::Walking {
        walking_speed: Fixed::from_int(8),
        jump_impulse: Fixed::from_int(10),
    };
    e.movement_hitbox = one_cell_box();
    e.position.row = Fixed::from_int(20);
    e.movement_controls.jump = true;
    game.spawn(e);
    game.tick();
    // No impulse: only gravity.
    assert_eq!(game.entities[0].velocity.row.raw, -600);
}

#[test]
fn horizontal_collision_snaps_and_stops() {
    let mut game = arena();
    // A stone wall one column to the right of the origin.
    game.terrain.set_tile(Coord { row: 10, col: 1 }, Some(Tile::Stone));
    let mut e = Entity::new();
    e.movement_mode = MovementMode::Dynamic;
    e.movement_hitbox = one_cell_box();
    e.position.row = Fixed::from_int(10);
    e.gravity_scale = Fixed { raw: 0 };
    e.velocity.col = Fixed::from_int(2);
    game.spawn(e);
    game.tick();
    assert_eq!(game.entities[0].velocity.col.raw, 0);
    assert_eq!(game.entities[0].position.col.raw, 0);
    assert_eq!(game.terrain.tile_at(Coord { row: 10, col: 1 }), Some(Tile::Stone));
}

#[test]
fn impact_at_threshold_does_not_break() {
    // mass 500 gives a breaking velocity of exactly 2 tiles/s (7200 raw):
    // BREAKING_FORCE * TIMESTEP / mass. An impact exactly at the
    // threshold stops on the tile.
    assert_eq!(BREAKING_FORCE, 216_000_000);
    assert_eq!(TIMESTEP, 60);
    let mut game = arena();
    let mut e = Entity::new();
    e.movement_mode = MovementMode::Dynamic;
    e.movement_hitbox = one_cell_box();
    e.position.row = Fixed::from_int(10);
    e.gravity_scale = Fixed { raw: 0 };
    e.mass = Fixed::from_int(500);
    e.velocity.row = Fixed { raw: -7200 };
    game.spawn(e);
    game.tick();
    assert_eq!(game.terrain.tile_at(Coord { row: 9, col: 0 }), Some(Tile::Stone));
    assert_eq!(game.entities[0].velocity.row.raw, 0);
    assert_eq!(game.entities[0].position.row.raw, 10 * FIXED_SCALE);
    assert!(game.entities[0].on_ground);
}

#[test]
fn impact_above_threshold_breaks_the_tile() {
    // Strictly above the threshold the tile is destroyed and the
    // velocity falls by the threshold rather than zeroing.
    let mut game = arena();
    let mut e = Entity::new();
    e.movement_mode = MovementMode::Dynamic;
    e.movement_hitbox = one_cell_box();
    e.position.row = Fixed::from_int(10);
    e.gravity_scale = Fixed { raw: 0 };
    e.mass = Fixed::from_int(500);
    e.velocity.row = Fixed { raw: -7201 };
    game.spawn(e);
    assert_eq!(game.terrain.tile_at(Coord { row: 9, col: 0 }), Some(Tile::Stone));
    game.tick();
    assert_eq!(game.terrain.tile_at(Coord { row: 9, col: 0 }), None);
    assert_eq!(game.entities[0].velocity.row.raw, -1);
    assert!(!game.entities[0].on_ground);
}

#[test]
fn grass_is_walked_through() {
    let mut game = arena();
    game.terrain.set_tile(Coord { row: 10, col: 1 }, Some(Tile::Grass));
    let mut e = Entity::new();
    e.movement_mode = MovementMode::Dynamic;
    e.movement_hitbox = one_cell_box();
    e.position.row = Fixed::from_int(10);
    e.gravity_scale = Fixed { raw: 0 };
    e.velocity.col = Fixed::from_int(2);
    game.spawn(e);
    game.tick();
    // Grass does not block: the entity keeps its speed.
    assert_eq!(game.entities[0].velocity.col.raw, 2 * FIXED_SCALE);
}

#[test]
fn tile_impassable_reads_the_live_terrain() {
    let mut game = arena();
    assert!(tile_impassable(&game.terrain, Coord { row: 9, col: 0 }));
    assert!(!tile_impassable(&game.terrain, Coord { row: 10, col: 0 }));
    game.terrain.set_tile(Coord { row: 10, col: 0 }, Some(Tile::Grass));
    assert!(!tile_impassable(&game.terrain, Coord { row: 10, col: 0 }));
}

#[test]
fn find_player_prefers_the_first() {
    let mut game = Game::new_seeded(0);
    assert!(game.find_player().is_none());
    assert!(game.get_player().is_none());
    let mut a = Entity::new();
    a.position.row = Fixed::from_int(200);
    game.spawn(a);
    let p = new_player();
    game.spawn(p);
    assert_eq!(game.find_player(), Some(1));
    assert!(game.get_player().is_some());
    assert!(game.get_player_mut().is_some());
}

#[test]
fn spawning_a_player_snaps_camera_and_streams() {
    let mut game = Game::new_seeded(0);
    assert_eq!(game.terrain.chunks.len(), 0);
    let p = new_player();
    game.spawn(p);
    assert_eq!(game.camera.position.row, 197);
    assert_eq!(game.camera.position.col, 0);
    assert_eq!(game.terrain.chunks.len(), 33);
}

#[test]
fn set_player_controls_reaches_the_player() {
    let mut game = Game::new_seeded(0);
    game.spawn(new_player());
    let mut controls = MovementControls::empty();
    controls.right = true;
    controls.jump = true;
    game.set_player_controls(controls);
    assert!(game.entities[0].movement_controls.right);
    assert!(game.entities[0].movement_controls.jump);
    assert!(!game.entities[0].movement_controls.left);
}

#[test]
fn deletion_sweep_keeps_order() {
    let mut game = Game::new_seeded(0);
    for i in 0..5i64 {
        let mut e = Entity::new();
        e.position.col = Fixed::from_int(i);
        e.deletion_flag = i % 2 == 0;
        game.spawn(e);
    }
    game.delete_marked_entities();
    assert_eq!(game.entities.len(), 2);
    assert_eq!(game.entities[0].position.col.raw, 1 * FIXED_SCALE);
    assert_eq!(game.entities[1].position.col.raw, 3 * FIXED_SCALE);
}

#[test]
fn tick_runs_the_deletion_sweep() {
    let mut game = Game::new_seeded(0);
    let mut e = Entity::new();
    e.deletion_flag = true;
    game.spawn(e);
    game.tick();
    assert_eq!(game.entities.len(), 0);
}

#[test]
fn camera_follows_the_player() {
    let mut game = arena();
    let mut p = new_player();
    p.position.row = Fixed::from_int(10);
    game.spawn(p);
    let mut controls = MovementControls::empty();
    controls.right = true;
    game.set_player_controls(controls);
    for _ in 0..60 {
        game.tick();
    }
    // After a second at 8 tiles/s the camera has followed the player
    // several columns to the right.
    assert!(game.camera.position.col >= 7);
    assert_eq!(game.camera.position.col, game.entities[0].tile_pos().col);
}

#[test]
fn new_player_matches_its_design() {
    let p = new_player();
    assert!(p.has_flag(EntityFlag::Player));
    assert_eq!(p.mass.raw, 50 * FIXED_SCALE);
    match p.movement_mode {
        MovementMode::Walking { walking_speed, jump_impulse } => {
            assert_eq!(walking_speed.raw, 8 * FIXED_SCALE);
            assert_eq!(jump_impulse.raw, 10 * FIXED_SCALE);
        },
        _ => panic!("the player walks"),
    }
    assert_eq!(p.position.row.raw, 197 * FIXED_SCALE);
}

#[test]
fn default_world_parameters() {
    let game = Game::new();
    assert!(!game.exit_requested());
    assert_eq!(game.gravity.row.raw, GRAVITY_ROW);
    assert_eq!(game.gravity.col.raw, 0);
    assert_eq!(game.camera.position, Coord { row: 0, col: 0 });
}

#[test]
fn camera_projection_centres_its_focus() {
    let camera = Camera { position: Coord { row: 100, col: -40 } };
    let centre = camera.project(Coord { row: 100, col: -40 }, 30, 80);
    assert_eq!(centre, Coord { row: 15, col: 40 });
    let above = camera.project(Coord { row: 103, col: -38 }, 30, 80);
    assert_eq!(above, Coord { row: 18, col: 42 });
}

#[test]
fn entity_center_is_half_the_box_up_and_right() {
    let mut e = Entity::new();
    e.movement_hitbox = Some(AABB { width: 2, height: 4 });
    e.position.row = Fixed::from_int(6);
    e.position.col = Fixed::from_int(-2);
    let c = e.center();
    assert_eq!(c.row.raw, 8 * FIXED_SCALE);
    assert_eq!(c.col.raw, -1 * FIXED_SCALE);
}

#[test]
fn flags_accumulate_without_duplicates() {
    let mut e = Entity::new();
    assert!(!e.has_flag(EntityFlag::Player));
    e.add_flag(EntityFlag::Player);
    assert!(e.has_flag(EntityFlag::Player));
    e.add_flag(EntityFlag::Player);
    assert!(e.has_flag(EntityFlag::Player));
    assert_eq!(e.flags.len(), 1);
}

#[test]
fn ceiling_stops_upward_motion() {
    let mut game = arena();
    game.terrain.set_tile(Coord { row: 11, col: 0 }, Some(Tile::Stone));
    let mut e = Entity::new();
    e.movement_mode = MovementMode::Dynamic;
    e.movement_hitbox = one_cell_box();
    e.position.row = Fixed::from_int(10);
    e.gravity_scale = Fixed { raw: 0 };
    e.velocity.row = Fixed::from_int(2);
    game.spawn(e);
    game.tick();
    // The top edge snaps just below the blocking tile and the climb stops.
    assert_eq!(game.entities[0].velocity.row.raw, 0);
    assert_eq!(game.entities[0].position.row.raw, 10 * FIXED_SCALE);
    assert!(!game.entities[0].on_ground);
}
