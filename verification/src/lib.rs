//! Verified loading, validation and projection of a backup server's startup
//! configuration.
//!
//! The crate parses a small key-value configuration source into a
//! `ServerConfig`, classifies every failure into one of four error kinds,
//! and derives the restricted, externally servable view `ServerConfigPublic`
//! together with its serialized form.

pub mod config;
pub mod errors;
pub mod loader;
pub mod numbers;
pub mod parse;
pub mod text;
