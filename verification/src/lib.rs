//! A small software ray tracer, verified end to end.
//!
//! All geometry runs on 16.16 fixed-point numbers (an `i64` holding the real
//! value scaled by 2^16), so every arithmetic step has an exact mathematical
//! meaning that the contracts pin down: truncating division, fixed-point
//! multiplication, and a floor square root.  One frame is rendered by casting
//! one camera ray per pixel at a scene of spheres and packing the resulting
//! color into an RGBA byte buffer owned by the caller.

pub mod camera;
pub mod errlog;
pub mod fixed;
pub mod ray;
pub mod shapes;
pub mod vec3;
pub mod world;
