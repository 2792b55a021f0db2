//! Locates a named executable through a composed search path and assembles
//! the environment it is launched with from declarative rules, so that
//! per-executable customization needs no shell wrapper scripts.
//!
//! The crate is the engine alone: config validation, search-path
//! composition and resolution, and environment composition with duplicate
//! detection.  Reading the config file, parsing the command line, and
//! spawning the process stay with the caller, which hands plain values in
//! and takes plain values out.

pub mod args;
pub mod config;
pub mod envcomp;
pub mod error;
pub mod launch;
pub mod search;
pub mod strutil;
