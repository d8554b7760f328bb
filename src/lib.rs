//! Authoritative state for a two-player paddle-and-ball game and the
//! text protocol that keeps connected players in sync with it.
//!
//! Coordinates and directions are fixed-point numbers: thousandths of a
//! board unit (see `game::UNIT`).
pub mod game;
pub mod text;
pub mod peers;
