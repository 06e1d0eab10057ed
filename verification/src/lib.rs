pub mod arith;
pub mod camera;
pub mod color;
pub mod config;
pub mod driver;
pub mod gradient;
pub mod ray;
pub mod render;
pub mod scalar;
pub mod vec3;
