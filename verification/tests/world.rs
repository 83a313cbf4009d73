//! Tests for the fixed-point numbers, coordinates, noise, generation and
//! terrain streaming.

use tileworld::chunk::{surface_height, Chunk, Tile, CHUNK_AREA, CHUNK_HEIGHT, CHUNK_WIDTH, TERRAIN_BASE, TERRAIN_HEIGHT};
use tileworld::fixed::{Fixed, FIXED_SCALE};
use tileworld::noise_field::NoiseField;
use tileworld::terrain::{chunk_pos_of, Terrain, CHUNKS_LOADED_RADIUS};
use tileworld::util::Coord;
use tileworld::chunk::FlowerColor;
use tileworld::util::CoordReal;

#[test]
fn fixed_from_int_and_round_trip() {
    let a = Fixed::from_int(5);
    assert_eq!(a.raw, 5 * FIXED_SCALE);
    assert_eq!(a.round_int(), 5);
    assert_eq!(a.floor_int(), 5);
    let b = Fixed::from_int(-3);
    assert_eq!(b.raw, -3 * FIXED_SCALE);
    assert_eq!(b.round_int(), -3);
    assert_eq!(b.floor_int(), -3);
}

#[test]
fn fixed_mul_truncates_toward_zero() {
    // 1.5 * 1.5 == 2.25 exactly.
    let a = Fixed { raw: 5400 };
    assert_eq!(a.mul(a).raw, 8100);
    // (-1.5) * 1.5 == -2.25 exactly.
    let b = Fixed { raw: -5400 };
    assert_eq!(b.mul(a).raw, -8100);
    // (1/3600) * (1/3600) truncates to zero from both sides.
    let eps = Fixed { raw: 1 };
    let neg_eps = Fixed { raw: -1 };
    assert_eq!(eps.mul(eps).raw, 0);
    assert_eq!(neg_eps.mul(eps).raw, 0);
}

#[test]
fn fixed_div_exact_and_truncating() {
    // 1000 / 50 == 20.
    let n = Fixed::from_int(1000);
    let d = Fixed::from_int(50);
    assert_eq!(n.div(d).raw, 20 * FIXED_SCALE);
    // (-1) / 3 truncates toward zero: -1200 raw.
    let a = Fixed::from_int(-1);
    let three = Fixed::from_int(3);
    assert_eq!(a.div(three).raw, -1200);
}

#[test]
fn fixed_round_halves_away_from_zero() {
    assert_eq!(Fixed { raw: 1800 }.round_int(), 1);
    assert_eq!(Fixed { raw: 1799 }.round_int(), 0);
    assert_eq!(Fixed { raw: -1800 }.round_int(), -1);
    assert_eq!(Fixed { raw: -1799 }.round_int(), 0);
}

#[test]
fn fixed_floor_and_ceil_on_negatives() {
    let x = Fixed { raw: -3601 };
    assert_eq!(x.floor_int(), -2);
    assert_eq!(x.floor().raw, -2 * FIXED_SCALE);
    assert_eq!(x.ceil().raw, -1 * FIXED_SCALE);
    let y = Fixed { raw: 3601 };
    assert_eq!(y.floor().raw, FIXED_SCALE);
    assert_eq!(y.ceil().raw, 2 * FIXED_SCALE);
}

#[test]
fn coord_add_and_to_real() {
    let a = Coord { row: 2, col: -7 };
    let b = Coord { row: -5, col: 9 };
    let c = a.add(b);
    assert_eq!(c.row, -3);
    assert_eq!(c.col, 2);
    let r = c.to_real();
    assert_eq!(r.row.raw, -3 * FIXED_SCALE);
    assert_eq!(r.col.raw, 2 * FIXED_SCALE);
}

#[test]
fn chunk_pos_floor_division() {
    assert_eq!(chunk_pos_of(0), 0);
    assert_eq!(chunk_pos_of(15), 0);
    assert_eq!(chunk_pos_of(16), 1);
    assert_eq!(chunk_pos_of(-1), -1);
    assert_eq!(chunk_pos_of(-16), -1);
    assert_eq!(chunk_pos_of(-17), -2);
}

#[test]
fn tile_impassability_by_variant() {
    assert!(Tile::Dirt.is_impassable());
    assert!(Tile::Stone.is_impassable());
    assert!(Tile::GrassyDirt.is_impassable());
    assert!(!Tile::Grass.is_impassable());
    assert!(!Tile::Flower(FlowerColor::Red).is_impassable());
}

#[test]
fn noise_sample_stays_in_unit_range() {
    let noise = NoiseField::new(7);
    let mut x: i64 = -40 * FIXED_SCALE;
    while x <= 40 * FIXED_SCALE {
        let v = noise.sample(Fixed { raw: x });
        assert!(-FIXED_SCALE <= v.raw && v.raw <= FIXED_SCALE);
        x += 731;
    }
}

#[test]
fn noise_is_deterministic_per_seed() {
    let a = NoiseField::new(42);
    let b = NoiseField::new(42);
    let mut x: i64 = -10000;
    while x <= 10000 {
        assert_eq!(a.sample(Fixed { raw: x }).raw, b.sample(Fixed { raw: x }).raw);
        x += 997;
    }
}

#[test]
fn different_seeds_change_the_terrain() {
    // Would fail if the seeded table were ignored by the sampler.
    let a = NoiseField::new(0);
    let b = NoiseField::new(1234567);
    let mut differs = false;
    let mut col: i64 = -200;
    while col <= 200 {
        if surface_height(&a, col) != surface_height(&b, col) {
            differs = true;
        }
        col += 1;
    }
    assert!(differs);
}

#[test]
fn surface_height_spans_base_to_top() {
    let noise = NoiseField::new(3);
    let mut col: i64 = -500;
    while col <= 500 {
        let h = surface_height(&noise, col);
        assert!(TERRAIN_BASE <= h && h <= TERRAIN_HEIGHT);
        col += 1;
    }
}

#[test]
fn regenerate_is_deterministic() {
    let noise = NoiseField::new(99);
    let other = NoiseField::new(99);
    let mut a = Chunk::new(32);
    a.regenerate(&noise);
    let mut b = Chunk::new(32);
    b.regenerate(&other);
    assert_eq!(a.tiles, b.tiles);
    assert_eq!(a.tiles.len(), CHUNK_AREA);
}

#[test]
fn generated_columns_follow_the_strata() {
    let noise = NoiseField::new(5);
    let mut chunk = Chunk::new(-16);
    chunk.regenerate(&noise);
    for local in 0..CHUNK_WIDTH as i64 {
        let col = -16 + local;
        let h = surface_height(&noise, col) as i64;
        for row in 0..CHUNK_HEIGHT as i64 {
            let tile = chunk.tile_at(Coord { row, col });
            let expected = if row > h {
                None
            } else if row == h {
                Some(Tile::Grass)
            } else if row == h - 1 {
                Some(Tile::GrassyDirt)
            } else if row >= h - 9 {
                Some(Tile::Dirt)
            } else {
                Some(Tile::Stone)
            };
            assert_eq!(tile, expected);
        }
    }
}

#[test]
fn strata_never_out_of_order() {
    let rank = |t: Option<Tile>| -> u32 {
        match t {
            Some(Tile::Stone) => 0,
            Some(Tile::Dirt) => 1,
            Some(Tile::GrassyDirt) => 2,
            Some(Tile::Grass) => 3,
            Some(Tile::Flower(_)) => 4,
            None => 5,
        }
    };
    let noise = NoiseField::new(11);
    let mut chunk = Chunk::new(0);
    chunk.regenerate(&noise);
    for col in 0..CHUNK_WIDTH as i64 {
        let mut last: u32 = 0;
        for row in 0..CHUNK_HEIGHT as i64 {
            let r = rank(chunk.tile_at(Coord { row, col }));
            assert!(r >= last);
            last = r;
        }
    }
}

#[test]
fn chunk_tile_at_is_total() {
    let chunk = Chunk::new(0);
    assert_eq!(chunk.tile_at(Coord { row: -1, col: 0 }), None);
    assert_eq!(chunk.tile_at(Coord { row: 256, col: 0 }), None);
    assert_eq!(chunk.tile_at(Coord { row: 0, col: -1 }), None);
    assert_eq!(chunk.tile_at(Coord { row: 0, col: 16 }), None);
    assert_eq!(chunk.tile_at(Coord { row: 0, col: 0 }), None);
}

#[test]
fn empty_terrain_reads_air_everywhere() {
    let terrain = Terrain::new(0);
    assert_eq!(terrain.tile_at(Coord { row: 0, col: 0 }), None);
    assert_eq!(terrain.tile_at(Coord { row: 100, col: -3000 }), None);
}

#[test]
fn stream_window_is_exact() {
    let mut terrain = Terrain::new(0);
    terrain.stream_around(Coord { row: 0, col: 37 });
    let center = chunk_pos_of(37);
    let mut positions: Vec<i64> = terrain.chunks.iter().map(|c| c.chunk_position()).collect();
    positions.sort();
    let expected: Vec<i64> =
        (center - CHUNKS_LOADED_RADIUS..=center + CHUNKS_LOADED_RADIUS).collect();
    assert_eq!(positions, expected);
}

#[test]
fn stream_recenters_the_window() {
    let mut terrain = Terrain::new(0);
    terrain.stream_around(Coord { row: 0, col: 0 });
    terrain.stream_around(Coord { row: 0, col: -1000 });
    let center = chunk_pos_of(-1000);
    let mut positions: Vec<i64> = terrain.chunks.iter().map(|c| c.chunk_position()).collect();
    positions.sort();
    let expected: Vec<i64> =
        (center - CHUNKS_LOADED_RADIUS..=center + CHUNKS_LOADED_RADIUS).collect();
    assert_eq!(positions, expected);
}

#[test]
fn stream_is_idempotent() {
    let mut a = Terrain::new(8);
    a.stream_around(Coord { row: 0, col: 123 });
    let before: Vec<(i64, Vec<Option<Tile>>)> =
        a.chunks.iter().map(|c| (c.world_position, c.tiles.clone())).collect();
    a.stream_around(Coord { row: 0, col: 123 });
    let after: Vec<(i64, Vec<Option<Tile>>)> =
        a.chunks.iter().map(|c| (c.world_position, c.tiles.clone())).collect();
    assert_eq!(before, after);
}

#[test]
fn stream_keeps_edited_tiles() {
    let mut terrain = Terrain::new(0);
    terrain.stream_around(Coord { row: 0, col: 0 });
    let spot = Coord { row: 50, col: 3 };
    assert!(terrain.tile_at(spot).is_some());
    terrain.set_tile(spot, None);
    assert_eq!(terrain.tile_at(spot), None);
    terrain.stream_around(Coord { row: 0, col: 0 });
    assert_eq!(terrain.tile_at(spot), None);
}

#[test]
fn terrain_tile_lookup_degrades_to_air() {
    let mut terrain = Terrain::new(0);
    terrain.stream_around(Coord { row: 0, col: 0 });
    // Inside the window and the world height: some tile near the floor.
    assert!(terrain.tile_at(Coord { row: 0, col: 0 }).is_some());
    // Outside the window's columns: air.
    let far = (CHUNKS_LOADED_RADIUS + 2) * CHUNK_WIDTH as i64;
    assert_eq!(terrain.tile_at(Coord { row: 0, col: far }), None);
    // Outside the world's rows: air.
    assert_eq!(terrain.tile_at(Coord { row: -1, col: 0 }), None);
    assert_eq!(terrain.tile_at(Coord { row: 256, col: 0 }), None);
}

#[test]
fn fixed_arithmetic_helpers() {
    let a = Fixed::from_int(3);
    let b = Fixed::from_int(-5);
    assert_eq!(a.add(b).raw, -2 * FIXED_SCALE);
    assert_eq!(a.sub(b).raw, 8 * FIXED_SCALE);
    assert_eq!(b.neg().raw, 5 * FIXED_SCALE);
    assert_eq!(b.abs().raw, 5 * FIXED_SCALE);
    assert!(b.is_neg());
    assert!(!a.is_neg());
    let lo = Fixed::from_int(-1);
    let hi = Fixed::from_int(1);
    assert_eq!(a.clamp(lo, hi).raw, FIXED_SCALE);
    assert_eq!(b.clamp(lo, hi).raw, -FIXED_SCALE);
    assert_eq!(Fixed::zero().clamp(lo, hi).raw, 0);
}

#[test]
fn coord_real_componentwise_ops() {
    let a = CoordReal { row: Fixed::from_int(2), col: Fixed::from_int(-1) };
    let b = CoordReal { row: Fixed::from_int(1), col: Fixed::from_int(4) };
    let sum = a.add(b);
    assert_eq!(sum.row.raw, 3 * FIXED_SCALE);
    assert_eq!(sum.col.raw, 3 * FIXED_SCALE);
    let diff = a.sub(b);
    assert_eq!(diff.row.raw, FIXED_SCALE);
    assert_eq!(diff.col.raw, -5 * FIXED_SCALE);
    let scaled = a.mul(Fixed::from_int(3));
    assert_eq!(scaled.row.raw, 6 * FIXED_SCALE);
    assert_eq!(scaled.col.raw, -3 * FIXED_SCALE);
    assert_eq!(CoordReal::zero().row.raw, 0);
}
