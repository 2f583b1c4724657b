//! Profile and mod synchronisation engine of a mod manager.
//!
//! Mods live once in a shared store. Each profile selects mods by links in its
//! own mod directory. This library holds the rules; the caller does the I/O.

pub mod files;
pub mod git;
pub mod json;
pub mod links;
pub mod logs;
pub mod model;
pub mod paths;
pub mod profile;
pub mod release;
pub mod scanner;
pub mod sync;
pub mod text;
pub mod version;
