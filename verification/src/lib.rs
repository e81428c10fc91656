//! Verified core of the Rusterix retro game engine: map topology, selection,
//! entity bookkeeping, server id handling, script-host helpers and the
//! integer parts of colour parsing, terrain bounds and line rasterization.

pub mod attrs;
pub mod chunks;
pub mod color;
pub mod config;
pub mod entity;
pub mod ids;
pub mod map;
pub mod message;
pub mod parser;
pub mod raster;
pub mod region;
pub mod rusterix;
pub mod script_host;
pub mod server;
pub mod slots;
pub mod state;
pub mod terrain;
pub mod text;
pub mod util;
