//! The camera: a wrapper around a primary-ray generator.

use vstd::prelude::*;

verus! {

/// A source of primary rays. An implementor knows the extent of the canvas it
/// renders to; the rays themselves are handed out by the implementor's own
/// iteration interface.
pub trait RayGenerator {
    /// The canvas extent the generated rays cover, as columns and rows.
    fn canvas_size(&self) -> (usize, usize);
}

/// A camera renders a world through the primary rays of its generator.
pub struct Camera<R: RayGenerator> {
    pub ray_generator: R,
}

impl<R: RayGenerator> Camera<R> {
    pub fn new(ray_generator: R) -> (r: Camera<R>)
        ensures
            r == (Camera { ray_generator }),
    {
        Camera { ray_generator }
    }

    /// The generator this camera draws its rays from.
    pub fn ray_generator(&self) -> (r: &R)
        ensures
            r == &self.ray_generator,
    {
        &self.ray_generator
    }
}

} // verus!
