//! The verified core of a small Monte Carlo ray tracer.
//!
//! Everything here is exact and free of floating point: the grammar of the
//! scene description, the rules by which a ray meets a shape, the decisions
//! that the light-transport integrator takes at each bounce, the mapping of
//! the pixel grid and of the bytes of the image, and the control of the
//! progressive renderer. The arithmetic on rays and colours is done by the
//! program around this library. That program is handed the numerals of a
//! scene as text whose form was checked, and hands back the numbers on which
//! a decision rests as their bit patterns.

pub mod config;
pub mod linalg;
pub mod number;
pub mod pattern;
pub mod render;
pub mod scene;
pub mod shapes;
pub mod text;
pub mod trace;
