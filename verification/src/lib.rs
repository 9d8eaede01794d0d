pub mod fixed;
pub mod rng;
pub mod vector3;
pub mod ray;
pub mod interval;
pub mod material;
pub mod hittable;
pub mod sphere;
pub mod camera;
