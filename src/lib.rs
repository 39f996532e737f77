//! Exact integer core of a Monte Carlo path tracer.
//!
//! Coordinates live on a fixed-point lattice (`i64`), so bounding volumes,
//! the bounding-volume hierarchy, ray/box tests, camera frames, the sample
//! scheduler and the per-bounce decisions of the integrator are stated and
//! proved exactly. Shading, which needs floating point, is left to callers.
pub mod vec3;
pub mod interval;
pub mod ray;
pub mod aabb;
pub mod bvh;
pub mod bvh_wrapper;
pub mod hit_window;
pub mod onb;
pub mod camera;
pub mod sampling;
pub mod random;
pub mod noise;
pub mod integrator;
pub mod mesh;
