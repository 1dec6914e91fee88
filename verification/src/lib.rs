//! A turn-based grid-puzzle engine: a player token pushes movable blocks
//! across a fixed rectangular grid toward scoring-target cells, with
//! immovable walls blocking motion.
//!
//! The heart of the crate is the movement resolver ([`resolver::resolve`]):
//! given a directional command and the current occupancy of the grid it walks
//! a ray of cells from the player toward the boundary, collects the chain of
//! movable entities that must shift together, and stops at the first gap or
//! wall.  The turn controller ([`turn::tick`]) consumes one queued command,
//! applies the whole chain atomically, advances the move counter and
//! re-evaluates the win condition.

pub mod components;
pub mod laws;
pub mod loader;
pub mod resolver;
pub mod resources;
pub mod turn;
pub mod world;
