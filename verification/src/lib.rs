//! World editing logic for Pumpkin servers: selections, cuboid geometry,
//! block patterns, queued edits with undo/redo history, and configuration.

pub mod text;
pub mod numbers;
pub mod geometry;
pub mod pattern;
pub mod config;
pub mod history;
pub mod engine;
pub mod state;
pub mod selection;
pub mod commands;
pub mod updater;
pub mod messages;
pub mod writes;
pub mod suggestions;
