//! A gravitational N-body simulation core in exact fixed-point arithmetic:
//! all-pairs force accumulation, semi-implicit Euler integration, fading
//! trail markers, and absorption of planets by a dominant star.
pub mod absorb;
pub mod body;
pub mod force;
pub mod integrate;
pub mod trail;
pub mod vector;
pub mod world;
