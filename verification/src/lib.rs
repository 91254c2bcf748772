//! Core of an interactive 2D polynomial plotter.
//!
//! The library holds everything with algorithmic content: the term/polynomial
//! model and its simplifying builder, the equation text parser, the view
//! state mutated by zoom and pan gestures, the math-space/pixel-space
//! coordinate transform, the grid and tick generator, and the curve sampler.
//! Window creation, the event loop and the vector-drawing backend are
//! external collaborators: the library only computes which geometry to
//! submit, as a batch of stroke-classed polylines in pixel coordinates.
//!
//! All quantities are fixed-point numbers ([`fixed::Fixed`]): signed
//! 64-bit counts of millionths of a unit. This keeps every computation
//! exact and lets each contract state the result in plain integer
//! arithmetic.

pub mod demo;
pub mod equation;
pub mod fixed;
pub mod view;
pub mod graph;
pub mod menu;
pub mod parser;
