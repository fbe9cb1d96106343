//! Discovery, registration and inspection of Minecraft world folders.
//!
//! The library keeps the decisions of the application: the forward-only
//! schema migration of the path store, the deduplicated registry of world
//! paths and its text-safe path encoding, the classification of candidate
//! world folders, and the detection of the compression wrapper of NBT files
//! with a check of their structure before they are parsed.

pub mod codec;
pub mod format;
pub mod registry;
pub mod scanner;
pub mod shape;
pub mod schema;
