//! A verified core for a two-dimensional lattice-Boltzmann fluid sandbox.
//!
//! The crate has two halves.  `barrier_shapes` and `click_handler` implement
//! the barrier editor: rasterized lines, freehand curves, mergeable tagged
//! point sets, and an undo history that restores overlapping strokes
//! correctly.  `lattice` implements the D2Q9 simulation state itself in exact
//! fixed-point arithmetic: equilibrium initialisation, collision, streaming
//! with bounce-back at barriers, and the derived summary fields.  `resolution`
//! solves lattice dimensions from a pixel budget and `control` holds the
//! shared control flags and the per-frame servicing order.

pub mod barrier_shapes;
pub mod click_handler;
pub mod control;
pub mod lattice;
pub mod resolution;
