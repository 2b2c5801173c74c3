//! A grid-based dungeon engine: a tile model, a map with field-of-view and
//! curse propagation, a binary-space-partition level generator, and the turn
//! logic that drives them.

pub mod game;
pub mod generator;
pub mod map;
pub mod player;
pub mod random;
pub mod sprite_sheet;
pub mod tile;
pub mod view;
