//! Core library of a manager for a game-server executable: it inventories
//! optional add-on content ("mods") kept in parallel enabled/disabled
//! directory trees, classifies compressed content packages, models the
//! supervised server process with its console log, and holds the plain
//! configuration records that the surrounding application persists.
//!
//! The library itself performs no file, process or network I/O: callers list
//! directories, read files, spawn the child process and carry out the move
//! and write plans that these functions compute.

pub mod archive;
pub mod config;
pub mod errors;
pub mod mods;
pub mod process;
pub mod server;
pub mod settings;
pub mod strutil;
