//! The level generator: rooms laid out by binary space partition and joined
//! by corridors.

pub mod bsp;
pub mod corridor;
pub mod furniture;
pub mod map;
pub mod room;
