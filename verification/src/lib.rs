//! Pieces is a minimal argument parsing library.
//!
//! Raw process tokens are handed in as an already-materialized ordered
//! sequence; declarative [`args::Arg`] and [`commands::Command`] descriptors
//! say what is recognized. Parsing is lenient and never fails: tokens that
//! match nothing are skipped. Strictness (duplicate descriptors, missing
//! required arguments) is checked separately, on demand, by the validator
//! methods of [`parser::Parser`].

pub mod args;
pub mod commands;
pub mod flags;
pub mod parser;
pub mod tokens;

pub use tokens::FancyArgs;
