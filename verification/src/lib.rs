//! Typed resolution of named environment variables.
//!
//! The crate turns a table of string-valued variables into typed
//! configuration values: a scalar resolver parses one variable into a
//! target type, a list resolver splits a variable on commas and parses
//! every piece, and both fall back to a caller-supplied default only
//! when the variable is absent.  Reading the real process environment
//! is left to the embedding program, which hands the resolvers an
//! [`env::EnvVars`] snapshot.

pub mod env;
pub mod parse;
pub mod resolve;
pub mod text;
pub mod traits;
