//! The deterministic core of *The Necessary Work*: authored-content schema and
//! validation, the integer simulation with its command boundary and tick
//! order, projected previews, bot strategies, and replay records.

pub mod world;
pub mod units;
pub mod schema;
pub mod hash;
pub mod text;
pub mod render;
pub mod catalogue;
pub mod calc;
pub mod rng;
pub mod command;
pub mod trace;
pub mod state;
pub mod derive;
pub mod sim;
pub mod tick;
pub mod init;
pub mod preview;
pub mod headroom;
pub mod bounds;
pub mod record;
pub mod bot;
pub mod laws;
pub mod properties;
pub mod determinism;
