//! The decisions and computations behind `red`: the Minecraft control panel, the
//! countdown store and the maintenance tracker, as verified functions on plain
//! values.

pub mod countdowns;
pub mod http;
pub mod listing;
pub mod mc;
pub mod order;
pub mod store;
pub mod store_laws;
pub mod systems;
pub mod text;
