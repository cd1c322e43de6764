//! The discrete core of a Monte Carlo path tracer: the ordering of reals,
//! intervals and boxes, the bounding-volume hierarchy and the scene list, and
//! the decisions that the shapes, materials, densities and the camera take
//! on numbers that the caller has worked out.

pub mod aabb;
pub mod bvh;
pub mod bvh_build;
pub mod camera;
pub mod constant_medium;
pub mod hittable;
pub mod hittable_list;
pub mod interval;
pub mod material;
pub mod nearest;
pub mod obj;
pub mod onb;
pub mod pdf;
pub mod perlin;
pub mod pixel_buffer;
pub mod quad;
pub mod ray;
pub mod reorder;
pub mod rtw_image;
pub mod rtweekend;
pub mod scalar;
pub mod sphere;
pub mod texture;
pub mod triangle;
pub mod vec3;
