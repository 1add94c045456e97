//! A verified core for a Whitted-style ray tracer.
//!
//! The crate holds the discrete heart of the renderer: the hit register and
//! its refraction-boundary bookkeeping, constructive solid geometry (CSG)
//! filtering over shape trees, the canvas with its byte-exact PPM encoding,
//! and the camera plumbing. Scalars such as intersection times enter the
//! library as order codes: signed integers whose order and sign agree with
//! the scene's real-valued times, so that sorting, hit selection and
//! refraction tracking are proved once and for all orderings.

pub mod builder;
pub mod canvas;
pub mod csg;
pub mod intersections;
pub mod obj;
pub mod shapes;
pub mod transform;
pub mod view;
