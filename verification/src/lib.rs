//! Persistent local-state layer for a desktop note/editor application.
//!
//! The crate durably stores an editor session (open tabs, recent files) in a
//! single JSON manager file, reconciles that state with the filesystem, and
//! performs one-time migration from the legacy on-disk schema to the current
//! one.  The manager-file format is implemented here as verified functions on
//! character sequences; writing and probing the disk goes through a small set
//! of trusted wrappers around outside crates.

pub mod atomic;
pub mod cipher;
pub mod codec;
pub mod files;
pub mod fsio;
pub mod manager;
pub mod migrate;
pub mod model;
pub mod notes;
pub mod sanitize;
pub mod text;
pub mod validate;
