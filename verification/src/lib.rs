//! Composite-shape centroid calculator.
//!
//! A session builds an ordered store of signed 2-D primitives (solid shapes
//! and cut-outs); the solver combines their areas and first moments into a
//! composite centroid. Coordinates are exact rationals, and areas are kept in
//! the exact form `a + b*pi`, so every formula here is proved as stated;
//! turning those exact values into decimal text is left to the caller.

#![verifier::loop_isolation(false)]

pub mod frac;
pub mod geometry;
pub mod parser;
pub mod solver;
