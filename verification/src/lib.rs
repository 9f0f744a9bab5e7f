//! A deterministic 2D physics core for an axis-aligned "box collision" demo.
//!
//! The library simulates rigid axis-aligned rectangles ("boxes") inside a
//! fixed viewport: gravity, semi-implicit Euler integration, wall bounces
//! with restitution, and pairwise collision resolution along the axis of
//! least penetration. All state is integer fixed-point (see `params`), so
//! every step is exactly reproducible; the contracts pin each step down to
//! a mathematical step function, which makes determinism a theorem rather
//! than a hope.
//!
//! Rendering and input are outside collaborators: they feed plain values in
//! (`spawn`, `remove`, frame deltas) and read plain values out (`snapshot`).

pub mod body;
pub mod params;
pub mod resolve;
pub mod simloop;
pub mod vec2;
pub mod world;
