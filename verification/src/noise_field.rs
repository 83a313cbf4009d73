//! The deterministic noise source that drives terrain generation.
//!
//! A `NoiseField` is a seed-parameterized continuous function from a 1D
//! fixed-point coordinate to a value in `[-1, 1]`. The seeded randomness
//! comes from the noise crate's permutation table, sampled at integer
//! lattice points; the continuous part — linear interpolation between
//! lattice samples and the remap into `[-1, 1]` — is verified fixed-point
//! arithmetic in this module. Sampling is a pure function of the seed and
//! the coordinate, which is what makes terrain generation replayable.

use vstd::prelude::*;
use noise::permutationtable::NoiseHasher;

verus! {

use crate::fixed::{Fixed, FIXED_SCALE, fixed_floor, clamp_int};

#[verifier::external_type_specification]
#[verifier::external_body]
pub struct ExPermutationTable(noise::permutationtable::PermutationTable);

/// The byte that the seeded permutation table yields at one lattice point:
/// a pure function of the seed and the point. Nothing more is assumed of it
/// beyond the range stated where it is produced.
pub uninterp spec fn lattice_of(seed: u32, cell: int) -> int;

/// The interpolated sample at raw fixed-point coordinate `x`, in raw units:
/// the two neighbouring lattice bytes are interpolated linearly by the
/// fractional position, scaled to `[0, FIXED_SCALE]`, then remapped to
/// `[-FIXED_SCALE, FIXED_SCALE]`, that is to `[-1, 1]` in world units.
pub open spec fn spec_sample(seed: u32, x: int) -> int {
    let cell = fixed_floor(x);
    let frac = x - cell * (FIXED_SCALE as int);
    let lo = clamp_int(lattice_of(seed, cell), 0, 255);
    let hi = clamp_int(lattice_of(seed, cell + 1), 0, 255);
    let interp = lo * ((FIXED_SCALE as int) - frac) + hi * frac;
    (interp / 255) * 2 - (FIXED_SCALE as int)
}

/// A seeded, deterministic continuous noise source. The seed and the
/// table are set together at construction and never change, so sampling
/// is a function of the seed alone; the seed is the field's view.
pub struct NoiseField {
    seed: u32,
    table: noise::permutationtable::PermutationTable,
}

impl View for NoiseField {
    type V = u32;

    closed spec fn view(&self) -> u32 {
        self.seed
    }
}

impl NoiseField {
    /// Relies on noise::permutationtable::PermutationTable::new, which its
    /// documentation states "deterministically generates a new permutation
    /// table based on a u32 seed value".
    #[verifier::external_body]
    pub fn new(seed: u32) -> (r: NoiseField)
        ensures
            r@ == seed,
    {
        NoiseField { seed, table: noise::permutationtable::PermutationTable::new(seed) }
    }

    /// Relies on noise::permutationtable::NoiseHasher::hash for
    /// PermutationTable: a pure function of the table (itself a function of
    /// the seed alone) and the input point, whose body returns one byte of
    /// the table, so the result is below 256.
    #[verifier::external_body]
    fn lattice(&self, cell: i64) -> (r: u8)
        ensures
            r as int == lattice_of(self@, cell as int),
    {
        let point: [isize; 1] = [cell as isize];
        self.table.hash(&point) as u8
    }

    /// Sample the continuous noise at fixed-point coordinate `x`; the result
    /// is in `[-1, 1]` (raw `[-3600, 3600]`) and depends only on the seed
    /// and `x`.
    pub fn sample(&self, x: Fixed) -> (v: Fixed)
        requires
            i64::MIN + (FIXED_SCALE as int) < x.raw,
        ensures
            v.raw == spec_sample(self@, x.raw as int),
            -(FIXED_SCALE as int) <= v.raw <= FIXED_SCALE as int,
    {
        let cell: i64 = x.floor_int();
        proof {
            assert(cell * (FIXED_SCALE as int) <= x.raw as int
                && (x.raw as int) < cell * (FIXED_SCALE as int) + (FIXED_SCALE as int))
                by (nonlinear_arith)
                requires
                    cell == fixed_floor(x.raw as int),
                    FIXED_SCALE == 3600,
            {}
        }
        let frac: i64 = x.raw - cell * FIXED_SCALE;
        let lo: u8 = self.lattice(cell);
        let hi: u8 = self.lattice(cell + 1);
        proof {
            assert(0 <= lo as int * ((FIXED_SCALE as int) - frac)
                <= 255 * (FIXED_SCALE as int)) by (nonlinear_arith)
                requires
                    0 <= lo <= 255,
                    0 <= frac <= FIXED_SCALE,
                    FIXED_SCALE == 3600,
            {}
            assert(0 <= hi as int * frac <= 255 * (FIXED_SCALE as int)) by (nonlinear_arith)
                requires
                    0 <= hi <= 255,
                    0 <= frac <= FIXED_SCALE,
                    FIXED_SCALE == 3600,
            {}
            assert(lo as int * ((FIXED_SCALE as int) - frac) + hi as int * frac
                <= 255 * (FIXED_SCALE as int)) by (nonlinear_arith)
                requires
                    0 <= lo <= 255,
                    0 <= hi <= 255,
                    0 <= frac <= FIXED_SCALE,
                    FIXED_SCALE == 3600,
            {}
        }
        let interp: i64 = (lo as i64) * (FIXED_SCALE - frac) + (hi as i64) * frac;
        let unit: i64 = ((interp as u64) / 255u64) as i64;
        Fixed { raw: unit * 2 - FIXED_SCALE }
    }
}

} // verus!
