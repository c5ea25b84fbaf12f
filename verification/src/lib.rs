//! An offline ray-traced image renderer, verified with Verus.
//!
//! A static scene (geometric primitives with materials, point lights and a
//! camera) is turned into a raster image by casting one or more rays per
//! pixel, resolving the nearest surface each ray hits, and shading that point
//! with a local Phong-style illumination model.
//!
//! All world-space quantities are carried as fixed-point numbers: an `i64`
//! holds the underlying real value multiplied by [`fixed::SCALE`].  Every
//! arithmetic step (truncating multiplication and division, integer square
//! root) has an exact mathematical definition, so the whole render pipeline
//! is a pure, fully specified function of the scene.

pub mod bvh;
pub mod cameras;
pub mod fixed;
pub mod geometry;
pub mod lighting;
pub mod materials;
pub mod objects;
pub mod ray;
pub mod rendering;
pub mod vector;
