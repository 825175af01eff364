//! Verified core of a Wolf3D-style game: data-file decoding, state machines and game rules.

pub mod assets;
pub mod bytes;
pub mod combat;
pub mod command;
pub mod compression;
pub mod data;
pub mod dataset;
pub mod ecs;
pub mod enemy;
pub mod events;
pub mod fsm;
pub mod hud;
pub mod mapfile;
pub mod planes;
pub mod pool;
pub mod renderer;
pub mod vswap;
pub mod world;
