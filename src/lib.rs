//! Exact lattice geometry and raster bookkeeping for a small sphere renderer.
//!
//! Positions are integer multiples of one lattice unit (a thousandth of a
//! world unit in the bundled scene), so intersection decisions are made
//! exactly; floating-point shading is left to the caller.
pub mod image;
pub mod raster;
pub mod ray;
pub mod scene;
pub mod sphere;
pub mod vec;

pub use image::Pixel;
pub use ray::Ray;
pub use scene::Scene;
pub use sphere::{Crossing, Side, Sphere};
pub use vec::Vec3;
