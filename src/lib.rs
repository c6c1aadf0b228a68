//! Simulation core of an endless hill-gliding game: the streaming window of
//! terrain tiles, the lagged follower trail, the hill tile's triangle list and
//! the player's control flags.
pub mod controls;
pub mod mesh;
pub mod terrain;
pub mod trail;
