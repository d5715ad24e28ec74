//! Level resolution and filtering for a process-wide logging front end.
//!
//! The library decides which records a logger lets through: it resolves the
//! compiled-in maximum level of a build profile, parses textual directives of
//! the form `[module-path=]level`, merges both into a per-module level filter,
//! and answers whether a record of a given severity from a given module passes.
pub mod directive;
pub mod filter;
pub mod level_name;
pub mod profile;
pub mod severity;
pub mod text;
