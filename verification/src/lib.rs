//! Particle life: typed particles moving under pairwise, distance-dependent
//! attraction and repulsion rules.
//!
//! Every number of the simulation is a binary32 value held by its bit
//! pattern. This crate holds each decision of the engine, proved against the
//! value that the pattern denotes: how two numbers compare, which force zone
//! a distance falls in, when a velocity is reflected at the world's edge,
//! which species pairs interact, which configurations are valid, and when a
//! frame may be committed. Rounded arithmetic is the caller's part.

pub mod scalar;
pub mod vector;
pub mod force;
pub mod motion;
pub mod rules;
pub mod config;
pub mod state;
