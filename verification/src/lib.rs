//! Geometric core of a ray tracer over exact integer scalars: 3-component
//! vector algebra, rays, and the ray-sphere intersection engine with a
//! nearest-hit scene aggregate.

pub mod hit;
pub mod hittable_list;
pub mod math;
pub mod ray;
pub mod sphere;
pub mod vec3;
