pub mod camera;
pub mod fixed;
pub mod geometry;
pub mod interval;
pub mod ray;
pub mod vec3;
pub mod world;
