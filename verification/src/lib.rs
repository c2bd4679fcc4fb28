//! A tile-based wavefront-collapse land generator with verified
//! integer geometry primitives.

pub mod auth;
pub mod edges;
pub mod generator;
pub mod geometry;
pub mod rng;
pub mod rules;
pub mod tile;
pub mod tokens;
pub mod vec2d;
pub mod wfc;

use vstd::prelude::*;

verus! {

/// Parameters handed to a land generator: the two domain values that a
/// generated map distinguishes, and the distribution tuning knobs.
#[derive(Clone, Copy)]
pub struct LandGenerationParameters<T> {
    pub zero: T,
    pub basic: T,
    pub distance_divisor: u32,
    pub skip_distort: bool,
    pub skip_bezier: bool,
}

impl<T: Copy> LandGenerationParameters<T> {
    pub fn new(
        zero: T,
        basic: T,
        distance_divisor: u32,
        skip_distort: bool,
        skip_bezier: bool,
    ) -> (r: Self)
        ensures
            r.zero == zero,
            r.basic == basic,
            r.distance_divisor == distance_divisor,
            r.skip_distort == skip_distort,
            r.skip_bezier == skip_bezier,
    {
        Self { zero, basic, distance_divisor, skip_distort, skip_bezier }
    }

    pub fn zero(&self) -> (r: T)
        ensures
            r == self.zero,
    {
        self.zero
    }

    pub fn basic(&self) -> (r: T)
        ensures
            r == self.basic,
    {
        self.basic
    }
}

} // verus!
