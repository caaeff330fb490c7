//! Procedural dungeon-map generation on a fixed-size tile grid.
//!
//! A grid of `Wall` tiles is carved into rooms and connecting tunnels by one
//! of two interchangeable strategies (random room placement, or recursive
//! binary space partition), and every intermediate state is recorded as a
//! snapshot so the generation can be replayed.

pub mod grid;
pub mod rect;
pub mod map_builders;
