//! Planning core of an autotiling companion for the niri compositor.
//!
//! The crate decides; it performs no input or output. Callers hand it what the
//! compositor and the file system said, as plain values, and carry out the
//! actions and file contents that it returns.

pub mod arrangement;
pub mod compression;
pub mod config;
pub mod daemon;
pub mod delivery;
pub mod effects;
pub mod font;
pub mod ghostty_config;
pub mod grid;
pub mod layout;
pub mod master_stack;
pub mod mode;
pub mod motion;
pub mod model;
pub mod number;
pub mod order;
pub mod outputs;
pub mod refresh;
pub mod reply;
pub mod snapshot;
pub mod status;
pub mod steady;
pub mod text;
